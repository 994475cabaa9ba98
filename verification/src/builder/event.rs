//! The events of a markdown document, as far as the site rewrites them, and
//! the two calls into `pulldown_cmark`: text to events, and events to HTML.

use crate::text::texts_of;
use vstd::prelude::*;

verus! {

/// `pulldown_cmark::Event`: an event that the site does not read is carried
/// through as the parser made it.
#[verifier::external_type_specification]
#[verifier::external_body]
pub struct ExEvent<'a>(pulldown_cmark::Event<'a>);

/// `pulldown_cmark::Tag`: an element that the site does not read is carried
/// through as the parser made it.
#[verifier::external_type_specification]
#[verifier::external_body]
pub struct ExTag<'a>(pulldown_cmark::Tag<'a>);

/// `pulldown_cmark::CodeBlockKind`: how a code block was written. The site
/// carries it through.
#[verifier::external_type_specification]
#[verifier::external_body]
pub struct ExCodeBlockKind<'a>(pulldown_cmark::CodeBlockKind<'a>);

/// `pulldown_cmark::LinkType`, which `LinkKind` stands for in this library.
#[verifier::external_type_specification]
#[verifier::external_body]
pub struct ExLinkType(pulldown_cmark::LinkType);

/// `pulldown_cmark::HeadingLevel`, which `Level` stands for in this library.
#[verifier::external_type_specification]
#[verifier::external_body]
pub struct ExHeadingLevel(pulldown_cmark::HeadingLevel);

/// How a link was written.
#[derive(Clone, Copy, Debug, PartialEq, Eq)]
pub enum LinkKind {
    Inline,
    Reference,
    ReferenceUnknown,
    Collapsed,
    CollapsedUnknown,
    Shortcut,
    ShortcutUnknown,
    Autolink,
    Email,
}

/// The level of a heading.
#[derive(Clone, Copy, Debug, PartialEq, Eq)]
pub enum Level {
    H1,
    H2,
    H3,
    H4,
    H5,
    H6,
}

impl Level {
    /// The number of the level, 1 to 6.
    pub open spec fn rank(self) -> int {
        match self {
            Level::H1 => 1,
            Level::H2 => 2,
            Level::H3 => 3,
            Level::H4 => 4,
            Level::H5 => 5,
            Level::H6 => 6,
        }
    }

    /// The number of the level, 1 to 6.
    pub fn number(self) -> (n: usize)
        ensures
            n == self.rank(),
    {
        match self {
            Level::H1 => 1,
            Level::H2 => 2,
            Level::H3 => 3,
            Level::H4 => 4,
            Level::H5 => 5,
            Level::H6 => 6,
        }
    }
}

/// An element that has a start and an end.
#[derive(Debug, PartialEq)]
pub enum MdTag<'a> {
    /// A link: how it was written, its destination and its title.
    Link(LinkKind, String, String),
    /// An image: how it was written, its source and its title.
    Image(LinkKind, String, String),
    /// A heading: its level, its anchor and its classes.
    Heading(Level, Option<String>, Vec<String>),
    CodeBlock(pulldown_cmark::CodeBlockKind<'a>),
    BlockQuote,
    /// Any other element; the site passes it on as it is.
    Other(pulldown_cmark::Tag<'a>),
}

/// One event of a document.
#[derive(Debug, PartialEq)]
pub enum MdEvent<'a> {
    Text(String),
    Start(MdTag<'a>),
    End(MdTag<'a>),
    /// Any other event; the site passes it on as it is.
    Other(pulldown_cmark::Event<'a>),
}

/// What a `Tag` holds.
pub enum MdTagView<'a> {
    Link(LinkKind, Seq<char>, Seq<char>),
    Image(LinkKind, Seq<char>, Seq<char>),
    Heading(Level, Option<Seq<char>>, Seq<Seq<char>>),
    CodeBlock(pulldown_cmark::CodeBlockKind<'a>),
    BlockQuote,
    Other(pulldown_cmark::Tag<'a>),
}

/// What an `Event` holds.
pub enum MdEventView<'a> {
    Text(Seq<char>),
    Start(MdTagView<'a>),
    End(MdTagView<'a>),
    Other(pulldown_cmark::Event<'a>),
}

/// The text of a string, if there is one.
pub open spec fn text_of(s: Option<String>) -> Option<Seq<char>> {
    match s {
        Some(s) => Some(s@),
        None => None,
    }
}

impl<'a> View for MdTag<'a> {
    type V = MdTagView<'a>;

    open spec fn view(&self) -> MdTagView<'a> {
        match self {
            MdTag::Link(kind, dest, title) => MdTagView::Link(*kind, dest@, title@),
            MdTag::Image(kind, dest, title) => MdTagView::Image(*kind, dest@, title@),
            MdTag::Heading(level, anchor, classes) => MdTagView::Heading(
                *level,
                text_of(*anchor),
                texts_of(classes@),
            ),
            MdTag::CodeBlock(kind) => MdTagView::CodeBlock(*kind),
            MdTag::BlockQuote => MdTagView::BlockQuote,
            MdTag::Other(tag) => MdTagView::Other(*tag),
        }
    }
}

impl<'a> View for MdEvent<'a> {
    type V = MdEventView<'a>;

    open spec fn view(&self) -> MdEventView<'a> {
        match self {
            MdEvent::Text(text) => MdEventView::Text(text@),
            MdEvent::Start(tag) => MdEventView::Start(tag@),
            MdEvent::End(tag) => MdEventView::End(tag@),
            MdEvent::Other(event) => MdEventView::Other(*event),
        }
    }
}

/// What each event of a vector holds.
pub open spec fn views_of<'a>(events: Seq<MdEvent<'a>>) -> Seq<MdEventView<'a>> {
    events.map_values(|e: MdEvent<'a>| e@)
}

/// The views of a vector with one more event.
pub proof fn lemma_views_of_push<'a>(events: Seq<MdEvent<'a>>, e: MdEvent<'a>)
    ensures
        views_of(events.push(e)) == views_of(events).push(e@),
{
    assert(views_of(events.push(e)) =~= views_of(events).push(e@));
}

/// The events that `pulldown_cmark` reads from a text with every extension
/// switched on.
pub uninterp spec fn markdown_events(text: Seq<char>) -> Seq<MdEventView<'static>>;

/// The HTML that `pulldown_cmark` writes for a sequence of events.
pub uninterp spec fn html_of_events(events: Seq<MdEventView<'static>>) -> Seq<char>;

/// `LinkType` of `pulldown_cmark`, variant for variant.
#[verifier::external_body]
fn link_type_from(kind: pulldown_cmark::LinkType) -> LinkKind {
    match kind {
        pulldown_cmark::LinkType::Inline => LinkKind::Inline,
        pulldown_cmark::LinkType::Reference => LinkKind::Reference,
        pulldown_cmark::LinkType::ReferenceUnknown => LinkKind::ReferenceUnknown,
        pulldown_cmark::LinkType::Collapsed => LinkKind::Collapsed,
        pulldown_cmark::LinkType::CollapsedUnknown => LinkKind::CollapsedUnknown,
        pulldown_cmark::LinkType::Shortcut => LinkKind::Shortcut,
        pulldown_cmark::LinkType::ShortcutUnknown => LinkKind::ShortcutUnknown,
        pulldown_cmark::LinkType::Autolink => LinkKind::Autolink,
        pulldown_cmark::LinkType::Email => LinkKind::Email,
    }
}

/// `LinkType` of `pulldown_cmark`, variant for variant.
#[verifier::external_body]
fn link_type_into(kind: LinkKind) -> pulldown_cmark::LinkType {
    match kind {
        LinkKind::Inline => pulldown_cmark::LinkType::Inline,
        LinkKind::Reference => pulldown_cmark::LinkType::Reference,
        LinkKind::ReferenceUnknown => pulldown_cmark::LinkType::ReferenceUnknown,
        LinkKind::Collapsed => pulldown_cmark::LinkType::Collapsed,
        LinkKind::CollapsedUnknown => pulldown_cmark::LinkType::CollapsedUnknown,
        LinkKind::Shortcut => pulldown_cmark::LinkType::Shortcut,
        LinkKind::ShortcutUnknown => pulldown_cmark::LinkType::ShortcutUnknown,
        LinkKind::Autolink => pulldown_cmark::LinkType::Autolink,
        LinkKind::Email => pulldown_cmark::LinkType::Email,
    }
}

/// `HeadingLevel` of `pulldown_cmark`, variant for variant.
#[verifier::external_body]
fn level_from(level: pulldown_cmark::HeadingLevel) -> Level {
    match level {
        pulldown_cmark::HeadingLevel::H1 => Level::H1,
        pulldown_cmark::HeadingLevel::H2 => Level::H2,
        pulldown_cmark::HeadingLevel::H3 => Level::H3,
        pulldown_cmark::HeadingLevel::H4 => Level::H4,
        pulldown_cmark::HeadingLevel::H5 => Level::H5,
        pulldown_cmark::HeadingLevel::H6 => Level::H6,
    }
}

/// `HeadingLevel` of `pulldown_cmark`, variant for variant.
#[verifier::external_body]
fn level_into(level: Level) -> pulldown_cmark::HeadingLevel {
    match level {
        Level::H1 => pulldown_cmark::HeadingLevel::H1,
        Level::H2 => pulldown_cmark::HeadingLevel::H2,
        Level::H3 => pulldown_cmark::HeadingLevel::H3,
        Level::H4 => pulldown_cmark::HeadingLevel::H4,
        Level::H5 => pulldown_cmark::HeadingLevel::H5,
        Level::H6 => pulldown_cmark::HeadingLevel::H6,
    }
}

/// A `Tag` of `pulldown_cmark` as a `Tag` of this module: the fields of a
/// link, an image and a heading are copied, the others are kept whole.
#[verifier::external_body]
fn tag_from<'a>(tag: pulldown_cmark::Tag<'a>) -> MdTag<'a> {
    match tag {
        pulldown_cmark::Tag::Link(k, d, t) => MdTag::Link(link_type_from(k), d.to_string(), t.to_string()),
        pulldown_cmark::Tag::Image(k, d, t) => MdTag::Image(link_type_from(k), d.to_string(), t.to_string()),
        pulldown_cmark::Tag::Heading(l, a, c) => MdTag::Heading(
            level_from(l),
            a.map(String::from),
            c.into_iter().map(String::from).collect(),
        ),
        pulldown_cmark::Tag::CodeBlock(kind) => MdTag::CodeBlock(kind),
        pulldown_cmark::Tag::BlockQuote => MdTag::BlockQuote,
        other => MdTag::Other(other),
    }
}

/// A `Tag` of this module as a `Tag` of `pulldown_cmark`, the other way
/// round.
#[verifier::external_body]
fn tag_into<'a>(tag: &'a MdTag<'_>) -> pulldown_cmark::Tag<'a> {
    match tag {
        MdTag::Link(k, d, t) => pulldown_cmark::Tag::Link(link_type_into(*k), d.as_str().into(), t.as_str().into()),
        MdTag::Image(k, d, t) => pulldown_cmark::Tag::Image(link_type_into(*k), d.as_str().into(), t.as_str().into()),
        MdTag::Heading(l, a, c) => pulldown_cmark::Tag::Heading(
            level_into(*l),
            a.as_deref(),
            c.iter().map(String::as_str).collect(),
        ),
        MdTag::CodeBlock(kind) => pulldown_cmark::Tag::CodeBlock(kind.clone()),
        MdTag::BlockQuote => pulldown_cmark::Tag::BlockQuote,
        MdTag::Other(other) => other.clone(),
    }
}

/// An `Event` of `pulldown_cmark` as an `Event` of this module.
#[verifier::external_body]
fn event_from<'a>(event: pulldown_cmark::Event<'a>) -> MdEvent<'a> {
    match event {
        pulldown_cmark::Event::Text(text) => MdEvent::Text(text.to_string()),
        pulldown_cmark::Event::Start(tag) => MdEvent::Start(tag_from(tag)),
        pulldown_cmark::Event::End(tag) => MdEvent::End(tag_from(tag)),
        other => MdEvent::Other(other),
    }
}

/// An `Event` of this module as an `Event` of `pulldown_cmark`.
#[verifier::external_body]
fn event_into<'a>(event: &'a MdEvent<'_>) -> pulldown_cmark::Event<'a> {
    match event {
        MdEvent::Text(text) => pulldown_cmark::Event::Text(text.as_str().into()),
        MdEvent::Start(tag) => pulldown_cmark::Event::Start(tag_into(tag)),
        MdEvent::End(tag) => pulldown_cmark::Event::End(tag_into(tag)),
        MdEvent::Other(other) => other.clone(),
    }
}

/// `pulldown_cmark::Parser::new_ext` with `Options::all()`, run to its end:
/// the events of the text, in order. They depend on the text alone, and are
/// named by `markdown_events`.
#[verifier::external_body]
pub(crate) fn parse_events<'a>(text: &'a str) -> (events: Vec<MdEvent<'a>>)
    ensures
        views_of(events@) == markdown_events(text@),
{
    pulldown_cmark::Parser::new_ext(text, pulldown_cmark::Options::all()).map(event_from).collect()
}

/// `pulldown_cmark::html::push_html` into an empty string: the HTML of the
/// events. It depends on the events alone, and is named by `html_of_events`.
#[verifier::external_body]
pub(crate) fn render_events(events: &Vec<MdEvent<'_>>) -> (html: String)
    ensures
        html@ == html_of_events(views_of(events@)),
{
    let mut html = String::new();
    pulldown_cmark::html::push_html(&mut html, events.iter().map(event_into));
    html
}

} // verus!
