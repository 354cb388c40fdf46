//! A page, before it is written out.
//!
//! Everything user-supplied reaches a page through one of two doors: a text,
//! which is escaped on the way out, or a post, which goes through the
//! sanitizer in [`crate::markup`]. There is no third door: nothing else can be
//! put into a [`Node`].
use crate::markup::{render_with, rendered_with};
use crate::text::{copied, html_text, texts};
use vstd::prelude::*;
use vstd::string::*;

verus! {

/// A small drawing, made here rather than loaded: a character would be
/// whatever the reader's font makes of it, and an icon font would be a remote
/// dependency. It follows the colour of the text it sits next to.
#[derive(Debug, Clone, Copy, PartialEq, Eq, Structural)]
pub enum Icon {
    Bell,
    Pencil,
    Bin,
    Heart,
}

impl Icon {
    /// The drawing.
    pub open spec fn drawing(self) -> Seq<char> {
        match self {
            Icon::Bell =>
                "<svg class=\"icon\" viewBox=\"0 0 16 16\" width=\"19\" height=\"19\" aria-hidden=\"true\" focusable=\"false\"><path d=\"M4 11.5V7a4 4 0 0 1 8 0v4.5l1.3 1.3H2.7zM6.6 13.8a1.5 1.5 0 0 0 2.8 0\" fill=\"none\" stroke=\"currentColor\" stroke-width=\"1.3\" stroke-linecap=\"round\" stroke-linejoin=\"round\"></path></svg>"@,
            Icon::Pencil =>
                "<svg class=\"icon\" viewBox=\"0 0 16 16\" width=\"14\" height=\"14\" aria-hidden=\"true\" focusable=\"false\"><path d=\"M11.2 1.8 14.2 4.8 5.6 13.4 1.8 14.2 2.6 10.4z\" fill=\"none\" stroke=\"currentColor\" stroke-width=\"1.3\" stroke-linejoin=\"round\"></path></svg>"@,
            Icon::Bin =>
                "<svg class=\"icon\" viewBox=\"0 0 16 16\" width=\"14\" height=\"14\" aria-hidden=\"true\" focusable=\"false\"><path d=\"M2.5 4h11M6 4V2.5h4V4M3.8 4l.7 9.5h7l.7-9.5M6.5 6.5v5M9.5 6.5v5\" fill=\"none\" stroke=\"currentColor\" stroke-width=\"1.3\" stroke-linecap=\"round\" stroke-linejoin=\"round\"></path></svg>"@,
            Icon::Heart =>
                "<svg class=\"icon heart\" viewBox=\"0 0 16 16\" width=\"14\" height=\"14\" aria-hidden=\"true\" focusable=\"false\"><path d=\"M8 13.6 2.9 8.6a3 3 0 0 1 4.2-4.3L8 5.2l.9-.9a3 3 0 0 1 4.2 4.3z\" fill=\"none\" stroke=\"currentColor\" stroke-width=\"1.3\" stroke-linejoin=\"round\"></path></svg>"@,
        }
    }

    pub fn as_str(self) -> (r: &'static str)
        ensures
            r@ == self.drawing(),
    {
        match self {
            Icon::Bell =>
                "<svg class=\"icon\" viewBox=\"0 0 16 16\" width=\"19\" height=\"19\" aria-hidden=\"true\" focusable=\"false\"><path d=\"M4 11.5V7a4 4 0 0 1 8 0v4.5l1.3 1.3H2.7zM6.6 13.8a1.5 1.5 0 0 0 2.8 0\" fill=\"none\" stroke=\"currentColor\" stroke-width=\"1.3\" stroke-linecap=\"round\" stroke-linejoin=\"round\"></path></svg>",
            Icon::Pencil =>
                "<svg class=\"icon\" viewBox=\"0 0 16 16\" width=\"14\" height=\"14\" aria-hidden=\"true\" focusable=\"false\"><path d=\"M11.2 1.8 14.2 4.8 5.6 13.4 1.8 14.2 2.6 10.4z\" fill=\"none\" stroke=\"currentColor\" stroke-width=\"1.3\" stroke-linejoin=\"round\"></path></svg>",
            Icon::Bin =>
                "<svg class=\"icon\" viewBox=\"0 0 16 16\" width=\"14\" height=\"14\" aria-hidden=\"true\" focusable=\"false\"><path d=\"M2.5 4h11M6 4V2.5h4V4M3.8 4l.7 9.5h7l.7-9.5M6.5 6.5v5M9.5 6.5v5\" fill=\"none\" stroke=\"currentColor\" stroke-width=\"1.3\" stroke-linecap=\"round\" stroke-linejoin=\"round\"></path></svg>",
            Icon::Heart =>
                "<svg class=\"icon heart\" viewBox=\"0 0 16 16\" width=\"14\" height=\"14\" aria-hidden=\"true\" focusable=\"false\"><path d=\"M8 13.6 2.9 8.6a3 3 0 0 1 4.2-4.3L8 5.2l.9-.9a3 3 0 0 1 4.2 4.3z\" fill=\"none\" stroke=\"currentColor\" stroke-width=\"1.3\" stroke-linejoin=\"round\"></path></svg>",
        }
    }
}

/// An attribute of an element.
#[derive(Debug)]
pub enum Attr {
    Named(&'static str, String),
    /// One whose being there says it all.
    Bare(&'static str),
    /// One that is not there.
    Absent,
}

pub enum AttrView {
    Named(Seq<char>, Seq<char>),
    Bare(Seq<char>),
    Absent,
}

impl View for Attr {
    type V = AttrView;

    open spec fn view(&self) -> AttrView {
        match self {
            Attr::Named(name, value) => AttrView::Named(name@, value@),
            Attr::Bare(name) => AttrView::Bare(name@),
            Attr::Absent => AttrView::Absent,
        }
    }
}

pub open spec fn attrs_view(attrs: Seq<Attr>) -> Seq<AttrView> {
    Seq::new(attrs.len(), |i: int| attrs[i]@)
}

/// A piece of a page.
#[derive(Debug)]
pub enum Node {
    /// Somebody's words.
    Text(String),
    /// A post, with the handles that are marked as mentions in it.
    Post(String, Vec<String>),
    Icon(Icon),
    /// One piece after the other.
    Many(Vec<Node>),
    Element(&'static str, Vec<Attr>, Vec<Node>),
    /// An element that holds nothing and is not closed.
    Void(&'static str, Vec<Attr>),
}

pub enum NodeView {
    Text(Seq<char>),
    Post(Seq<char>, Seq<Seq<char>>),
    Icon(Icon),
    Many(Seq<NodeView>),
    Element(Seq<char>, Seq<AttrView>, Seq<NodeView>),
    Void(Seq<char>, Seq<AttrView>),
}

impl View for Node {
    type V = NodeView;

    open spec fn view(&self) -> NodeView
        decreases self,
    {
        match self {
            Node::Text(text) => NodeView::Text(text@),
            Node::Post(markdown, handles) => NodeView::Post(markdown@, texts(handles@)),
            Node::Icon(icon) => NodeView::Icon(*icon),
            Node::Many(nodes) => NodeView::Many(
                Seq::new(
                    nodes@.len(),
                    |i: int|
                        if 0 <= i < nodes@.len() {
                            nodes@[i].view()
                        } else {
                            NodeView::Text(Seq::empty())
                        },
                ),
            ),
            Node::Element(tag, attrs, nodes) => NodeView::Element(
                tag@,
                attrs_view(attrs@),
                Seq::new(
                    nodes@.len(),
                    |i: int|
                        if 0 <= i < nodes@.len() {
                            nodes@[i].view()
                        } else {
                            NodeView::Text(Seq::empty())
                        },
                ),
            ),
            Node::Void(tag, attrs) => NodeView::Void(tag@, attrs_view(attrs@)),
        }
    }
}

pub open spec fn nodes_view(nodes: Seq<Node>) -> Seq<NodeView> {
    Seq::new(nodes.len(), |i: int| nodes[i]@)
}

proof fn many_view(nodes: Vec<Node>)
    ensures
        Node::Many(nodes)@ == NodeView::Many(nodes_view(nodes@)),
{
    reveal_with_fuel(<Node as View>::view, 2);
    let node = Node::Many(nodes);
    assert(node@->Many_0 =~= nodes_view(nodes@));
}

proof fn element_view(tag: &'static str, attrs: Vec<Attr>, nodes: Vec<Node>)
    ensures
        Node::Element(tag, attrs, nodes)@ == NodeView::Element(
            tag@,
            attrs_view(attrs@),
            nodes_view(nodes@),
        ),
{
    reveal_with_fuel(<Node as View>::view, 2);
    let node = Node::Element(tag, attrs, nodes);
    assert(node@->Element_2 =~= nodes_view(nodes@));
}

/// Somebody's words.
pub open spec fn txt(s: Seq<char>) -> NodeView {
    NodeView::Text(s)
}

/// An element.
pub open spec fn elem(tag: Seq<char>, attrs: Seq<AttrView>, nodes: Seq<NodeView>) -> NodeView {
    NodeView::Element(tag, attrs, nodes)
}

/// An attribute.
pub open spec fn attr(name: Seq<char>, value: Seq<char>) -> AttrView {
    AttrView::Named(name, value)
}

pub fn text(s: &str) -> (r: Node)
    ensures
        r@ == NodeView::Text(s@),
{
    Node::Text(s.to_owned())
}

pub fn post(markdown: &str, handles: &[String]) -> (r: Node)
    ensures
        r@ == NodeView::Post(markdown@, texts(handles@)),
{
    Node::Post(markdown.to_owned(), copied(handles))
}

pub fn icon(drawn: Icon) -> (r: Node)
    ensures
        r@ == NodeView::Icon(drawn),
{
    Node::Icon(drawn)
}

pub fn many(nodes: Vec<Node>) -> (r: Node)
    ensures
        r@ == NodeView::Many(nodes_view(nodes@)),
{
    proof {
        many_view(nodes);
    }
    Node::Many(nodes)
}

/// Nothing.
pub open spec fn nothing_view() -> NodeView {
    NodeView::Many(Seq::empty())
}

pub fn nothing() -> (r: Node)
    ensures
        r@ == nothing_view(),
{
    let none: Vec<Node> = Vec::new();
    proof {
        many_view(none);
        assert(nodes_view(none@) =~= Seq::empty());
    }
    Node::Many(none)
}

pub fn element(tag: &'static str, attrs: Vec<Attr>, nodes: Vec<Node>) -> (r: Node)
    ensures
        r@ == NodeView::Element(tag@, attrs_view(attrs@), nodes_view(nodes@)),
{
    proof {
        element_view(tag, attrs, nodes);
    }
    Node::Element(tag, attrs, nodes)
}

pub fn void(tag: &'static str, attrs: Vec<Attr>) -> (r: Node)
    ensures
        r@ == NodeView::Void(tag@, attrs_view(attrs@)),
{
    Node::Void(tag, attrs)
}

pub fn named(name: &'static str, value: &str) -> (r: Attr)
    ensures
        r@ == AttrView::Named(name@, value@),
{
    Attr::Named(name, value.to_owned())
}

pub fn bare(name: &'static str) -> (r: Attr)
    ensures
        r@ == AttrView::Bare(name@),
{
    Attr::Bare(name)
}

/// An attribute that is there only if it has something to say.
pub open spec fn maybe_view(name: Seq<char>, value: Option<Seq<char>>) -> AttrView {
    match value {
        Some(value) => AttrView::Named(name, value),
        None => AttrView::Absent,
    }
}

pub fn maybe(name: &'static str, value: Option<&str>) -> (r: Attr)
    ensures
        r@ == maybe_view(
            name@,
            match value {
                Some(value) => Some(value@),
                None => None,
            },
        ),
{
    match value {
        Some(value) => Attr::Named(name, value.to_owned()),
        None => Attr::Absent,
    }
}

pub fn no_attrs() -> (r: Vec<Attr>)
    ensures
        attrs_view(r@) == Seq::<AttrView>::empty(),
{
    let out: Vec<Attr> = Vec::new();
    assert(attrs_view(out@) =~= Seq::empty());
    out
}

pub fn attrs1(a: Attr) -> (r: Vec<Attr>)
    ensures
        attrs_view(r@) == seq![a@],
{
    let out = vec![a];
    assert(attrs_view(out@) =~= seq![a@]);
    out
}

pub fn attrs2(a: Attr, b: Attr) -> (r: Vec<Attr>)
    ensures
        attrs_view(r@) == seq![a@, b@],
{
    let out = vec![a, b];
    assert(attrs_view(out@) =~= seq![a@, b@]);
    out
}

pub fn attrs3(a: Attr, b: Attr, c: Attr) -> (r: Vec<Attr>)
    ensures
        attrs_view(r@) == seq![a@, b@, c@],
{
    let out = vec![a, b, c];
    assert(attrs_view(out@) =~= seq![a@, b@, c@]);
    out
}

pub fn attrs4(a: Attr, b: Attr, c: Attr, d: Attr) -> (r: Vec<Attr>)
    ensures
        attrs_view(r@) == seq![a@, b@, c@, d@],
{
    let out = vec![a, b, c, d];
    assert(attrs_view(out@) =~= seq![a@, b@, c@, d@]);
    out
}

pub fn attrs5(a: Attr, b: Attr, c: Attr, d: Attr, e: Attr) -> (r: Vec<Attr>)
    ensures
        attrs_view(r@) == seq![a@, b@, c@, d@, e@],
{
    let out = vec![a, b, c, d, e];
    assert(attrs_view(out@) =~= seq![a@, b@, c@, d@, e@]);
    out
}

pub fn no_nodes() -> (r: Vec<Node>)
    ensures
        nodes_view(r@) == Seq::<NodeView>::empty(),
{
    let out: Vec<Node> = Vec::new();
    assert(nodes_view(out@) =~= Seq::empty());
    out
}

pub fn nodes1(a: Node) -> (r: Vec<Node>)
    ensures
        nodes_view(r@) == seq![a@],
{
    let out = vec![a];
    assert(nodes_view(out@) =~= seq![a@]);
    out
}

pub fn nodes2(a: Node, b: Node) -> (r: Vec<Node>)
    ensures
        nodes_view(r@) == seq![a@, b@],
{
    let out = vec![a, b];
    assert(nodes_view(out@) =~= seq![a@, b@]);
    out
}

pub fn nodes3(a: Node, b: Node, c: Node) -> (r: Vec<Node>)
    ensures
        nodes_view(r@) == seq![a@, b@, c@],
{
    let out = vec![a, b, c];
    assert(nodes_view(out@) =~= seq![a@, b@, c@]);
    out
}

pub fn nodes4(a: Node, b: Node, c: Node, d: Node) -> (r: Vec<Node>)
    ensures
        nodes_view(r@) == seq![a@, b@, c@, d@],
{
    let out = vec![a, b, c, d];
    assert(nodes_view(out@) =~= seq![a@, b@, c@, d@]);
    out
}

pub fn nodes5(a: Node, b: Node, c: Node, d: Node, e: Node) -> (r: Vec<Node>)
    ensures
        nodes_view(r@) == seq![a@, b@, c@, d@, e@],
{
    let out = vec![a, b, c, d, e];
    assert(nodes_view(out@) =~= seq![a@, b@, c@, d@, e@]);
    out
}

pub fn nodes6(a: Node, b: Node, c: Node, d: Node, e: Node, f: Node) -> (r: Vec<Node>)
    ensures
        nodes_view(r@) == seq![a@, b@, c@, d@, e@, f@],
{
    let out = vec![a, b, c, d, e, f];
    assert(nodes_view(out@) =~= seq![a@, b@, c@, d@, e@, f@]);
    out
}

/// `<str as maud::Render>::render`: `&`, `<`, `>` and `"` are written as
/// entities, and every other character as it is.
#[verifier::external_body]
fn escape(s: &str) -> (r: String)
    ensures
        r@ == html_text(s@),
{
    maud::Render::render(s).into_string()
}

/// An attribute, written out.
pub open spec fn attr_html(attr: AttrView) -> Seq<char> {
    match attr {
        AttrView::Named(name, value) => " "@ + name + "=\""@ + html_text(value) + "\""@,
        AttrView::Bare(name) => " "@ + name,
        AttrView::Absent => Seq::empty(),
    }
}

pub open spec fn attrs_html(attrs: Seq<AttrView>) -> Seq<char>
    decreases attrs.len(),
{
    if attrs.len() == 0 {
        Seq::empty()
    } else {
        attrs_html(attrs.drop_last()) + attr_html(attrs.last())
    }
}

/// A piece of a page, written out.
pub open spec fn node_html(node: NodeView) -> Seq<char>
    decreases node, 0int,
{
    match node {
        NodeView::Text(text) => html_text(text),
        NodeView::Post(markdown, handles) => rendered_with(markdown, handles),
        NodeView::Icon(icon) => icon.drawing(),
        NodeView::Many(nodes) => nodes_html(nodes, nodes.len()),
        NodeView::Element(tag, attrs, nodes) => "<"@ + tag + attrs_html(attrs) + ">"@ + nodes_html(
            nodes,
            nodes.len(),
        ) + "</"@ + tag + ">"@,
        NodeView::Void(tag, attrs) => "<"@ + tag + attrs_html(attrs) + ">"@,
    }
}

/// The first `count` pieces, written out one after the other.
pub open spec fn nodes_html(nodes: Seq<NodeView>, count: nat) -> Seq<char>
    decreases nodes, count,
{
    if count == 0 || count > nodes.len() {
        Seq::empty()
    } else {
        nodes_html(nodes, (count - 1) as nat) + node_html(nodes[count - 1])
    }
}

fn write_attrs(out: String, attrs: &Vec<Attr>) -> (r: String)
    ensures
        r@ == out@ + attrs_html(attrs_view(attrs@)),
{
    let ghost all = attrs_view(attrs@);
    let ghost start = out@;
    let mut out = out;
    let mut i: usize = 0;
    assert(out@ == start + attrs_html(all.take(0)));
    while i < attrs.len()
        invariant
            i <= attrs@.len(),
            all == attrs_view(attrs@),
            out@ == start + attrs_html(all.take(i as int)),
        decreases attrs@.len() - i,
    {
        let ghost before = attrs_html(all.take(i as int));
        assert(all.take(i + 1).drop_last() == all.take(i as int));
        assert(all.take(i + 1).last() == attrs@[i as int]@);
        match &attrs[i] {
            Attr::Named(name, value) => {
                let value = escape(value);
                out = out.concat(" ").concat(name).concat("=\"").concat(&value).concat("\"");
            },
            Attr::Bare(name) => {
                out = out.concat(" ").concat(name);
            },
            Attr::Absent => {},
        }
        assert(out@ =~= start + (before + attr_html(attrs@[i as int]@)));
        i += 1;
    }
    assert(all.take(i as int) == all);
    out
}

fn write_nodes(out: String, nodes: &Vec<Node>) -> (r: String)
    ensures
        r@ == out@ + nodes_html(nodes_view(nodes@), nodes@.len()),
    decreases nodes,
{
    let ghost all = nodes_view(nodes@);
    let ghost start = out@;
    let mut out = out;
    let mut i: usize = 0;
    assert(out@ == start + nodes_html(all, 0));
    while i < nodes.len()
        invariant
            i <= nodes@.len(),
            all == nodes_view(nodes@),
            out@ == start + nodes_html(all, i as nat),
        decreases nodes@.len() - i,
    {
        let ghost before = nodes_html(all, i as nat);
        assert(all[i as int] == nodes@[i as int]@);
        out = write_node(out, &nodes[i]);
        assert(out@ =~= start + (before + node_html(all[i as int])));
        i += 1;
    }
    out
}

fn write_node(out: String, node: &Node) -> (r: String)
    ensures
        r@ == out@ + node_html(node@),
    decreases node,
{
    let ghost start = out@;
    match node {
        Node::Text(text) => {
            let text = escape(text);
            out.concat(&text)
        },
        Node::Post(markdown, handles) => {
            let html = render_with(markdown, handles);
            out.concat(&html)
        },
        Node::Icon(icon) => out.concat(icon.as_str()),
        Node::Many(nodes) => {
            proof {
                many_view(*nodes);
            }
            write_nodes(out, nodes)
        },
        Node::Element(tag, attrs, nodes) => {
            proof {
                element_view(tag, *attrs, *nodes);
            }
            let out = write_attrs(out.concat("<").concat(tag), attrs).concat(">");
            let out = write_nodes(out, nodes).concat("</").concat(tag).concat(">");
            assert(out@ =~= start + node_html(node@));
            out
        },
        Node::Void(tag, attrs) => {
            let out = write_attrs(out.concat("<").concat(tag), attrs).concat(">");
            assert(out@ =~= start + node_html(node@));
            out
        },
    }
}

/// A whole document.
pub open spec fn document_html(page: NodeView) -> Seq<char> {
    "<!DOCTYPE html>"@ + node_html(page)
}

/// Writes out a whole document.
pub fn document(page: &Node) -> (r: String)
    ensures
        r@ == document_html(page@),
{
    write_node("<!DOCTYPE html>".to_owned(), page)
}

} // verus!
