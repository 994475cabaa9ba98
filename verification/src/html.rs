//! HTML as a tree: elements with classes, attributes and children, text, raw
//! markup and plain lists of nodes.

use crate::text::{append_chars, chars_of, lemma_texts_of_push, string_of, texts_of};
use vstd::prelude::*;

verus! {

/// An element.
#[derive(Debug, PartialEq)]
pub struct HtmlElement {
    pub tag: String,
    pub classes: Vec<String>,
    pub attributes: Vec<(String, String)>,
    pub children: Vec<Html>,
}

/// A node.
#[derive(Debug, PartialEq)]
pub enum Html {
    Element(HtmlElement),
    /// Text, which is escaped when it is written.
    Text(String),
    /// Markup, which is written as it is.
    Raw(String),
    /// Nodes one after another, with no element around them.
    List(Vec<Html>),
}

/// What an element holds.
pub struct ElementView {
    pub tag: Seq<char>,
    pub classes: Seq<Seq<char>>,
    pub attributes: Seq<(Seq<char>, Seq<char>)>,
    pub children: Seq<HtmlView>,
}

/// What a node holds.
pub enum HtmlView {
    Element(ElementView),
    Text(Seq<char>),
    Raw(Seq<char>),
    List(Seq<HtmlView>),
}

/// What each attribute of a vector holds.
pub open spec fn attributes_of(pairs: Seq<(String, String)>) -> Seq<(Seq<char>, Seq<char>)> {
    pairs.map_values(|p: (String, String)| (p.0@, p.1@))
}

impl View for HtmlElement {
    type V = ElementView;

    open spec fn view(&self) -> ElementView
        decreases self,
    {
        ElementView {
            tag: self.tag@,
            classes: texts_of(self.classes@),
            attributes: attributes_of(self.attributes@),
            children: Seq::new(
                self.children@.len(),
                |i: int|
                    if 0 <= i < self.children@.len() {
                        self.children@[i].view()
                    } else {
                        HtmlView::List(Seq::empty())
                    },
            ),
        }
    }
}

impl View for Html {
    type V = HtmlView;

    open spec fn view(&self) -> HtmlView
        decreases self,
    {
        match self {
            Html::Element(element) => HtmlView::Element(element.view()),
            Html::Text(text) => HtmlView::Text(text@),
            Html::Raw(markup) => HtmlView::Raw(markup@),
            Html::List(items) => HtmlView::List(
                Seq::new(
                    items@.len(),
                    |i: int|
                        if 0 <= i < items@.len() {
                            items@[i].view()
                        } else {
                            HtmlView::List(Seq::empty())
                        },
                ),
            ),
        }
    }
}

/// What each node of a vector holds.
pub open spec fn nodes_of(items: Seq<Html>) -> Seq<HtmlView> {
    Seq::new(items.len(), |i: int| items[i]@)
}

/// The views of a vector with one more node.
pub proof fn lemma_nodes_of_push(items: Seq<Html>, item: Html)
    ensures
        nodes_of(items.push(item)) == nodes_of(items).push(item@),
{
    assert(nodes_of(items.push(item)) =~= nodes_of(items).push(item@));
}

/// The children of an element are the views of its child nodes.
pub proof fn lemma_children(element: HtmlElement)
    ensures
        element@.children == nodes_of(element.children@),
{
    assert(element@.children =~= nodes_of(element.children@));
}

/// A list holds the views of its nodes.
pub proof fn lemma_list(items: Vec<Html>)
    ensures
        Html::List(items)@ == HtmlView::List(nodes_of(items@)),
{
    assert(Html::List(items)@->List_0 =~= nodes_of(items@));
}

impl HtmlElement {
    /// An element with nothing in it.
    pub fn new(tag: &str) -> (r: HtmlElement)
        ensures
            r@ == (ElementView {
                tag: tag@,
                classes: Seq::empty(),
                attributes: Seq::empty(),
                children: Seq::empty(),
            }),
    {
        let r = HtmlElement {
            tag: String::from_str(tag),
            classes: Vec::new(),
            attributes: Vec::new(),
            children: Vec::new(),
        };
        proof {
            assert(r@.classes =~= Seq::empty());
            assert(r@.attributes =~= Seq::empty());
            assert(r@.children =~= Seq::empty());
        }
        r
    }

    /// The element with one more attribute.
    pub fn with_attr(self, name: &str, value: &str) -> (r: HtmlElement)
        ensures
            r@ == (ElementView { attributes: self@.attributes.push((name@, value@)), ..self@ }),
    {
        let mut r = self;
        let pair = (String::from_str(name), String::from_str(value));
        r.attributes.push(pair);
        proof {
            assert(r@.attributes =~= self@.attributes.push((name@, value@)));
            assert(r@.children =~= self@.children);
        }
        r
    }

    /// The element with one more attribute, if a value is given.
    pub fn with_attr_opt(self, name: &str, value: Option<&str>) -> (r: HtmlElement)
        ensures
            r@ == match value {
                Some(value) => ElementView {
                    attributes: self@.attributes.push((name@, value@)),
                    ..self@
                },
                None => self@,
            },
    {
        match value {
            Some(value) => self.with_attr(name, value),
            None => self,
        }
    }

    /// The element with one more class.
    pub fn with_class(self, class: &str) -> (r: HtmlElement)
        ensures
            r@ == (ElementView { classes: self@.classes.push(class@), ..self@ }),
    {
        let mut r = self;
        let class = String::from_str(class);
        proof {
            lemma_texts_of_push(r.classes@, class);
        }
        r.classes.push(class);
        proof {
            assert(r@.children =~= self@.children);
        }
        r
    }

    /// The element with one more class, if one is given.
    pub fn with_class_opt(self, class: Option<&str>) -> (r: HtmlElement)
        ensures
            r@ == match class {
                Some(class) => ElementView { classes: self@.classes.push(class@), ..self@ },
                None => self@,
            },
    {
        match class {
            Some(class) => self.with_class(class),
            None => self,
        }
    }

    /// The element with one more child.
    pub fn with_child(self, child: Html) -> (r: HtmlElement)
        ensures
            r@ == (ElementView { children: self@.children.push(child@), ..self@ }),
    {
        let mut r = self;
        r.children.push(child);
        proof {
            assert(r@.children =~= self@.children.push(child@));
        }
        r
    }

    /// The element with one more child, if one is given.
    pub fn with_child_opt(self, child: Option<Html>) -> (r: HtmlElement)
        ensures
            r@ == match child {
                Some(child) => ElementView { children: self@.children.push(child@), ..self@ },
                None => self@,
            },
    {
        match child {
            Some(child) => self.with_child(child),
            None => self,
        }
    }

    /// The element with more children.
    pub fn with_children(self, children: Vec<Html>) -> (r: HtmlElement)
        ensures
            r@ == (ElementView { children: self@.children + nodes_of(children@), ..self@ }),
    {
        let mut r = self;
        let mut children = children;
        let ghost all = nodes_of(children@);
        r.children.append(&mut children);
        proof {
            assert(r@.children =~= self@.children + all);
        }
        r
    }

    /// The element with text as one more child.
    pub fn with_text(self, text: &str) -> (r: HtmlElement)
        ensures
            r@ == (ElementView { children: self@.children.push(HtmlView::Text(text@)), ..self@ }),
    {
        self.with_child(Html::Text(String::from_str(text)))
    }

    /// The element as a node.
    pub fn into_html(self) -> (r: Html)
        ensures
            r@ == HtmlView::Element(self@),
    {
        Html::Element(self)
    }
}

impl Html {
    /// A text node.
    pub fn text(text: &str) -> (r: Html)
        ensures
            r@ == HtmlView::Text(text@),
    {
        Html::Text(String::from_str(text))
    }

    /// A list of nodes.
    pub fn list(items: Vec<Html>) -> (r: Html)
        ensures
            r@ == HtmlView::List(nodes_of(items@)),
    {
        proof {
            lemma_list(items);
        }
        Html::List(items)
    }
}

/// How one character of text is written in HTML.
pub open spec fn escaped_char(c: char) -> Seq<char> {
    if c == '&' {
        "&amp;"@
    } else if c == '<' {
        "&lt;"@
    } else if c == '>' {
        "&gt;"@
    } else if c == '"' {
        "&quot;"@
    } else {
        seq![c]
    }
}

/// How text is written in HTML.
pub open spec fn escaped(text: Seq<char>) -> Seq<char>
    decreases text.len(),
{
    if text.len() == 0 {
        Seq::empty()
    } else {
        escaped(text.drop_last()) + escaped_char(text.last())
    }
}

/// The classes of an element as an attribute, if it has any.
pub open spec fn classes_text(classes: Seq<Seq<char>>) -> Seq<char> {
    if classes.len() == 0 {
        Seq::empty()
    } else {
        " class=\""@ + escaped(crate::text::joined(classes, seq![' '])) + "\""@
    }
}

/// The first `n` attributes, each with a space in front.
pub open spec fn attributes_text(attributes: Seq<(Seq<char>, Seq<char>)>, n: int) -> Seq<char>
    decreases n,
{
    if n <= 0 || n > attributes.len() {
        Seq::empty()
    } else {
        attributes_text(attributes, n - 1) + seq![' '] + attributes[n - 1].0 + "=\""@ + escaped(
            attributes[n - 1].1,
        ) + "\""@
    }
}

/// A node as HTML text.
pub open spec fn html_text(node: HtmlView) -> Seq<char>
    decreases node, 0int,
{
    match node {
        HtmlView::Element(element) => seq!['<'] + element.tag + classes_text(element.classes)
            + attributes_text(element.attributes, element.attributes.len() as int) + seq!['>']
            + nodes_text(element.children, element.children.len() as int) + "</"@ + element.tag
            + seq!['>'],
        HtmlView::Text(text) => escaped(text),
        HtmlView::Raw(markup) => markup,
        HtmlView::List(items) => nodes_text(items, items.len() as int),
    }
}

/// The first `n` nodes as HTML text, one after another.
pub open spec fn nodes_text(nodes: Seq<HtmlView>, n: int) -> Seq<char>
    decreases nodes, n,
{
    if n <= 0 || n > nodes.len() {
        Seq::empty()
    } else {
        nodes_text(nodes, n - 1) + html_text(nodes[n - 1])
    }
}

/// Writes text as HTML into `out`.
pub fn write_escaped(out: &mut Vec<char>, text: &Vec<char>)
    ensures
        final(out)@ == old(out)@ + escaped(text@),
{
    let ghost before = out@;
    let mut i: usize = 0;
    assert(before + escaped(text@.take(0)) =~= before);
    while i < text.len()
        invariant
            0 <= i <= text.len(),
            out@ == before + escaped(text@.take(i as int)),
        decreases text.len() - i,
    {
        let c = text[i];
        let piece = if c == '&' {
            chars_of("&amp;")
        } else if c == '<' {
            chars_of("&lt;")
        } else if c == '>' {
            chars_of("&gt;")
        } else if c == '"' {
            chars_of("&quot;")
        } else {
            let mut one: Vec<char> = Vec::new();
            one.push(c);
            one
        };
        proof {
            assert(piece@ =~= escaped_char(c));
            assert(text@.take(i + 1).drop_last() =~= text@.take(i as int));
            assert(text@.take(i + 1).last() == c);
            assert(before + escaped(text@.take(i as int)) + piece@ =~= before + escaped(
                text@.take(i + 1),
            ));
        }
        append_chars(out, &piece);
        i += 1;
    }
    proof {
        assert(text@.take(i as int) =~= text@);
    }
}

fn write_str(out: &mut Vec<char>, text: &str)
    ensures
        final(out)@ == old(out)@ + text@,
{
    let chars = chars_of(text);
    append_chars(out, &chars);
}

impl HtmlElement {
    fn write_classes(&self, out: &mut Vec<char>)
        ensures
            final(out)@ == old(out)@ + classes_text(self@.classes),
    {
        if self.classes.len() == 0 {
            assert(out@ + Seq::<char>::empty() =~= out@);
            return ;
        }
        let ghost before = out@;
        let mut parts: Vec<Vec<char>> = Vec::new();
        let mut i: usize = 0;
        while i < self.classes.len()
            invariant
                0 <= i <= self.classes.len(),
                crate::text::deep(parts@) == texts_of(self.classes@).take(i as int),
            decreases self.classes.len() - i,
        {
            let part = chars_of(self.classes[i].as_str());
            proof {
                crate::text::lemma_deep_push(parts@, part);
                assert(texts_of(self.classes@).take(i + 1) =~= texts_of(self.classes@).take(
                    i as int,
                ).push(part@));
            }
            parts.push(part);
            i += 1;
        }
        proof {
            assert(texts_of(self.classes@).take(i as int) =~= texts_of(self.classes@));
        }
        let mut space: Vec<char> = Vec::new();
        space.push(' ');
        assert(space@ =~= seq![' ']);
        let all = crate::text::join(&parts, &space);
        write_str(out, " class=\"");
        write_escaped(out, &all);
        write_str(out, "\"");
        proof {
            assert(out@ =~= before + classes_text(self@.classes));
        }
    }

    fn write_attributes(&self, out: &mut Vec<char>)
        ensures
            final(out)@ == old(out)@ + attributes_text(
                self@.attributes,
                self@.attributes.len() as int,
            ),
    {
        let ghost before = out@;
        let ghost attributes = self@.attributes;
        let mut i: usize = 0;
        assert(before + attributes_text(attributes, 0) =~= before);
        while i < self.attributes.len()
            invariant
                0 <= i <= self.attributes.len(),
                attributes == self@.attributes,
                out@ == before + attributes_text(attributes, i as int),
            decreases self.attributes.len() - i,
        {
            let ghost sofar = out@;
            out.push(' ');
            write_str(out, self.attributes[i].0.as_str());
            write_str(out, "=\"");
            let value = chars_of(self.attributes[i].1.as_str());
            write_escaped(out, &value);
            write_str(out, "\"");
            proof {
                assert(attributes[i as int] == (
                    self.attributes@[i as int].0@,
                    self.attributes@[i as int].1@,
                ));
                assert(out@ =~= before + attributes_text(attributes, i + 1));
            }
            i += 1;
        }
    }
}

impl Html {
    /// Writes the node as HTML into `out`.
    pub fn write(&self, out: &mut Vec<char>)
        ensures
            final(out)@ == old(out)@ + html_text(self@),
        decreases self, 1int,
    {
        let ghost before = out@;
        match self {
            Html::Element(element) => {
                proof {
                    lemma_children(*element);
                }
                out.push('<');
                write_str(out, element.tag.as_str());
                element.write_classes(out);
                element.write_attributes(out);
                out.push('>');
                Self::write_all(&element.children, out);
                write_str(out, "</");
                write_str(out, element.tag.as_str());
                out.push('>');
                proof {
                    assert(out@ =~= before + html_text(self@));
                }
            },
            Html::Text(text) => {
                let chars = chars_of(text.as_str());
                write_escaped(out, &chars);
            },
            Html::Raw(markup) => {
                write_str(out, markup.as_str());
            },
            Html::List(items) => {
                proof {
                    lemma_list(*items);
                }
                Self::write_all(items, out);
            },
        }
    }

    fn write_all(items: &Vec<Html>, out: &mut Vec<char>)
        ensures
            final(out)@ == old(out)@ + nodes_text(nodes_of(items@), items@.len() as int),
        decreases items, 0int,
    {
        let ghost before = out@;
        let ghost nodes = nodes_of(items@);
        let mut i: usize = 0;
        assert(before + nodes_text(nodes, 0) =~= before);
        while i < items.len()
            invariant
                0 <= i <= items.len(),
                nodes == nodes_of(items@),
                out@ == before + nodes_text(nodes, i as int),
            decreases items.len() - i,
        {
            items[i].write(out);
            proof {
                assert(nodes[i as int] == items@[i as int]@);
                assert(out@ =~= before + nodes_text(nodes, i + 1));
            }
            i += 1;
        }
    }

    /// The node as HTML text.
    pub fn gen_html(&self) -> (r: String)
        ensures
            r@ == html_text(self@),
    {
        let mut out: Vec<char> = Vec::new();
        self.write(&mut out);
        proof {
            assert(Seq::<char>::empty() + html_text(self@) =~= html_text(self@));
        }
        string_of(&out)
    }
}

} // verus!
