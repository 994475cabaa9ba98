//! What the page kinds share: emoji shorthand, and the slots of a
//! declaration's page.

use crate::ast::{DeclView, Entity};
use crate::builder::builder::Builder;
use crate::builder::traits::{browse_url, include_hint, ASTEntry, EntityMethods};
use crate::config::Config;
use crate::html::{nodes_of, ElementView, Html, HtmlElement, HtmlView};
use crate::text::{chars_of, string_of, substitute, substituted, table_of};
use crate::url::path_text;
use vstd::prelude::*;

verus! {

/// The shorthand tokens and the emoji written for each.
pub open spec fn emoji_shortcodes() -> Seq<(Seq<char>, Seq<char>)> {
    seq![
        (":warning:"@, "\u{26a0}\u{fe0f}"@),
        (":information_source:"@, "\u{2139}\u{fe0f}"@),
        (":white_check_mark:"@, "\u{2705}"@),
        (":x:"@, "\u{274c}"@),
        (":question:"@, "\u{2753}"@),
        (":exclamation:"@, "\u{2757}"@),
        (":bulb:"@, "\u{1f4a1}"@),
        (":memo:"@, "\u{1f4dd}"@),
        (":rocket:"@, "\u{1f680}"@),
        (":tada:"@, "\u{1f389}"@),
        (":fire:"@, "\u{1f525}"@),
        (":heart:"@, "\u{2764}\u{fe0f}"@),
        (":smile:"@, "\u{1f604}"@),
        (":+1:"@, "\u{1f44d}"@),
        (":-1:"@, "\u{1f44e}"@),
    ]
}

/// A text with its emoji shorthand written out.
pub open spec fn emojified(text: Seq<char>) -> Seq<char> {
    substituted(text, 0, emoji_shortcodes())
}

fn entry(token: &str, emoji: &str) -> (r: (Vec<char>, Vec<char>))
    ensures
        r.0@ == token@,
        r.1@ == emoji@,
{
    (chars_of(token), chars_of(emoji))
}

/// The table of `emoji_shortcodes`.
pub fn emoji_table() -> (table: Vec<(Vec<char>, Vec<char>)>)
    ensures
        table_of(table@) == emoji_shortcodes(),
{
    let mut table: Vec<(Vec<char>, Vec<char>)> = Vec::new();
    table.push(entry(":warning:", "\u{26a0}\u{fe0f}"));
    table.push(entry(":information_source:", "\u{2139}\u{fe0f}"));
    table.push(entry(":white_check_mark:", "\u{2705}"));
    table.push(entry(":x:", "\u{274c}"));
    table.push(entry(":question:", "\u{2753}"));
    table.push(entry(":exclamation:", "\u{2757}"));
    table.push(entry(":bulb:", "\u{1f4a1}"));
    table.push(entry(":memo:", "\u{1f4dd}"));
    table.push(entry(":rocket:", "\u{1f680}"));
    table.push(entry(":tada:", "\u{1f389}"));
    table.push(entry(":fire:", "\u{1f525}"));
    table.push(entry(":heart:", "\u{2764}\u{fe0f}"));
    table.push(entry(":smile:", "\u{1f604}"));
    table.push(entry(":+1:", "\u{1f44d}"));
    table.push(entry(":-1:", "\u{1f44e}"));
    proof {
        assert(table_of(table@) =~= emoji_shortcodes());
    }
    table
}

/// Writes out the emoji shorthand of a text.
pub fn fmt_emoji(text: &str) -> (r: String)
    ensures
        r@ == emojified(text@),
{
    let table = emoji_table();
    let chars = chars_of(text);
    let out = substitute(&chars, &table);
    string_of(&out)
}

/// The slots of the page of a declaration: its name, its description, a
/// link to where it can be read online, and what to write to bring it in.
/// A slot for which nothing is known is empty.
pub fn declaration_slots(
    entity: &Entity<'_>,
    name: &str,
    description: &str,
    builder: &Builder,
) -> (slots: Vec<(&'static str, Html)>)
    ensures
        slot_views(slots@) == declaration_slot_views(
            entity.decls(),
            entity.position(),
            name@,
            description@,
            &builder.config,
        ),
{
    let source = match entity.github_url(&builder.config) {
        Some(url) => {
            let element = HtmlElement::new("a").with_attr("href", url.as_str()).with_text(
                "View source",
            );
            proof {
                assert(element@.attributes =~= seq![("href"@, url@)]);
                assert(element@.children =~= seq![HtmlView::Text("View source"@)]);
            }
            element.into_html()
        },
        None => Html::list(Vec::new()),
    };
    let header = match entity.include_path(&builder.config) {
        Some(path) => {
            let text = path.to_unencoded_string();
            let element = HtmlElement::new("code").with_text(text.as_str());
            proof {
                assert(element@.children =~= seq![HtmlView::Text(text@)]);
            }
            element.into_html()
        },
        None => Html::list(Vec::new()),
    };
    proof {
        assert(nodes_of(Seq::<Html>::empty()) =~= Seq::<HtmlView>::empty());
    }
    let mut slots: Vec<(&'static str, Html)> = Vec::new();
    slots.push(("name", Html::text(name)));
    slots.push(("description", Html::text(description)));
    slots.push(("source", source));
    slots.push(("header", header));
    proof {
        assert(slot_views(slots@) =~= declaration_slot_views(
            entity.decls(),
            entity.position(),
            name@,
            description@,
            &builder.config,
        ));
    }
    slots
}

/// What each slot of a vector holds: its name and its content.
pub open spec fn slot_views(slots: Seq<(&'static str, Html)>) -> Seq<(Seq<char>, HtmlView)> {
    Seq::new(slots.len(), |i: int| (slots[i].0@, slots[i].1@))
}

/// The slots of the page of a declaration.
pub open spec fn declaration_slot_views(
    decls: Seq<DeclView>,
    position: int,
    name: Seq<char>,
    description: Seq<char>,
    config: &Config,
) -> Seq<(Seq<char>, HtmlView)> {
    seq![
        ("name"@, HtmlView::Text(name)),
        ("description"@, HtmlView::Text(description)),
        ("source"@, source_slot(browse_url(decls, position, config))),
        ("header"@, header_slot(include_hint(decls[position], config))),
    ]
}

/// The link to where a declaration can be read online, if that is known.
pub open spec fn source_slot(url: Option<Seq<char>>) -> HtmlView {
    match url {
        Some(url) => HtmlView::Element(
            ElementView {
                tag: "a"@,
                classes: Seq::empty(),
                attributes: seq![("href"@, url)],
                children: seq![HtmlView::Text("View source"@)],
            },
        ),
        None => HtmlView::List(Seq::empty()),
    }
}

/// The header to name in order to use a declaration, if that is known.
pub open spec fn header_slot(path: Option<Seq<Seq<char>>>) -> HtmlView {
    match path {
        Some(path) => HtmlView::Element(
            ElementView {
                tag: "code"@,
                classes: Seq::empty(),
                attributes: Seq::empty(),
                children: seq![HtmlView::Text(path_text(path))],
            },
        ),
        None => HtmlView::List(Seq::empty()),
    }
}

/// The slots of the page of an entry that stands for a declaration: those of
/// `declaration_slots` for the declaration, the name and the description
/// that the entry gives when it is asked for them.
pub fn output_function<'e, T: ASTEntry<'e>>(entry: &T, builder: &Builder) -> (slots: Vec<
    (&'static str, Html),
>)
    ensures
        exists|name: String, description: String, entity: &Entity<'e>|
            #[trigger] asked_for_slots(entry, builder, name, description, entity) && slot_views(
                slots@,
            ) == declaration_slot_views(
                entity.decls(),
                entity.position(),
                name@,
                description@,
                &builder.config,
            ),
        slots@.len() == 4,
{
    let name = entry.name();
    let description = entry.output_description(builder);
    let entity = entry.entity();
    let slots = declaration_slots(entity, name.as_str(), description.as_str(), builder);
    proof {
        assert(asked_for_slots(entry, builder, name, description, entity));
        assert(slot_views(slots@).len() == 4);
    }
    slots
}

/// Whether these are what an entry gave when it was asked for its name, its
/// description and its declaration.
pub open spec fn asked_for_slots<'e, T: ASTEntry<'e>>(
    entry: &T,
    builder: &Builder,
    name: String,
    description: String,
    entity: &Entity<'e>,
) -> bool {
    &&& call_ensures(T::name, (entry,), name)
    &&& call_ensures(T::output_description, (entry, builder), description)
    &&& call_ensures(T::entity, (entry,), entity)
}

} // verus!
