//! Markdown in, sanitized HTML out. After attachments this is the second
//! place where someone else's bytes decide what a browser does.
use crate::auth::{handle_char, handle_in, handle_of, is_handle_char};
use crate::authz::listed;
use crate::order::{each_once, once_each};
use crate::text::{chars, same, slice_string, text_of, texts};
use std::collections::{HashMap, HashSet};
use vstd::prelude::*;
use vstd::string::*;

verus! {

/// The Markdown that is understood, beyond the common core.
#[derive(Debug, Clone, Copy, PartialEq, Eq, Structural)]
pub struct Dialect {
    pub strikethrough: bool,
    pub table: bool,
    pub autolink: bool,
}

/// One dialect for every rendering, so that no two of them can drift into
/// parsing a post differently.
pub open spec fn spoken() -> Dialect {
    Dialect { strikethrough: true, table: true, autolink: true }
}

fn options() -> (r: Dialect)
    ensures
        r == spoken(),
{
    Dialect { strikethrough: true, table: true, autolink: true }
}

/// What a node of a parsed document is, as far as mentions care.
#[derive(Debug)]
pub enum Kind {
    Text(String),
    Link,
    Image,
    Other,
}

/// A node of a parsed document: how deep it stands, and what it is.
#[derive(Debug)]
pub struct Node {
    pub depth: usize,
    pub kind: Kind,
}

pub enum KindView {
    Text(Seq<char>),
    Link,
    Image,
    Other,
}

pub struct NodeView {
    pub depth: int,
    pub kind: KindView,
}

impl View for Kind {
    type V = KindView;

    open spec fn view(&self) -> KindView {
        match self {
            Kind::Text(t) => KindView::Text(t@),
            Kind::Link => KindView::Link,
            Kind::Image => KindView::Image,
            Kind::Other => KindView::Other,
        }
    }
}

impl View for Node {
    type V = NodeView;

    open spec fn view(&self) -> NodeView {
        NodeView { depth: self.depth as int, kind: self.kind@ }
    }
}

pub open spec fn nodes_view(nodes: Seq<Node>) -> Seq<NodeView> {
    Seq::new(nodes.len(), |i: int| nodes[i]@)
}

/// What stands in a node's place once a post has been marked up.
#[derive(Debug)]
pub enum Piece {
    /// Text, to be escaped like any other.
    Text(String),
    /// HTML, to be written as it is.
    Raw(String),
}

pub enum PieceView {
    Text(Seq<char>),
    Raw(Seq<char>),
}

impl View for Piece {
    type V = PieceView;

    open spec fn view(&self) -> PieceView {
        match self {
            Piece::Text(t) => PieceView::Text(t@),
            Piece::Raw(t) => PieceView::Raw(t@),
        }
    }
}

pub open spec fn pieces_view(pieces: Seq<Piece>) -> Seq<PieceView> {
    Seq::new(pieces.len(), |i: int| pieces[i]@)
}

/// For every node the HTML that stands in its place, if any does.
pub open spec fn edits_view(edits: Seq<Option<String>>) -> Seq<Option<Seq<char>>> {
    Seq::new(edits.len(), |i: int| text_of(edits[i]))
}

/// The nodes of the document that a Markdown text is parsed into, in document
/// order: every node before its children, siblings one after the other. The
/// depth of a node is the number of its ancestors, itself counted.
pub uninterp spec fn markdown_nodes(markdown: Seq<char>, dialect: Dialect) -> Seq<NodeView>;

/// The HTML a Markdown text is rendered as. Raw HTML in it is left out.
pub uninterp spec fn markdown_html(markdown: Seq<char>, dialect: Dialect) -> Seq<char>;

/// The HTML of the document with nodes replaced: where there is an entry under
/// the place of a node, its HTML is written in place of the node.
pub uninterp spec fn edited_html(
    markdown: Seq<char>,
    dialect: Dialect,
    edits: Seq<Option<Seq<char>>>,
) -> Option<Seq<char>>;

/// The HTML with everything taken out that is not on the allow list: the
/// default one, links to these schemes only and with this `rel`, attributes
/// only as `kept_value` keeps them, and besides the classes named here none.
pub uninterp spec fn cleaned_html(
    html: Seq<char>,
    schemes: Seq<Seq<char>>,
    rel: Seq<char>,
    classes: Seq<(Seq<char>, Seq<char>)>,
) -> Seq<char>;

/// `comrak::parse_document`, and then `descendants` and `ancestors` of the
/// node it returns: a function of the text and the dialect alone.
#[verifier::external_body]
fn parse_nodes(markdown: &str, dialect: Dialect) -> (r: Vec<Node>)
    ensures
        nodes_view(r@) == markdown_nodes(markdown@, dialect),
{
    let arena = comrak::Arena::new();
    let mut options = comrak::Options::default();
    options.extension.strikethrough = dialect.strikethrough;
    options.extension.table = dialect.table;
    options.extension.autolink = dialect.autolink;
    let root = comrak::parse_document(&arena, markdown, &options);
    let kind = |n: comrak::Node| match &n.data.borrow().value {
        comrak::nodes::NodeValue::Text(t) => Kind::Text(t.to_string()),
        comrak::nodes::NodeValue::Link(_) => Kind::Link,
        comrak::nodes::NodeValue::Image(_) => Kind::Image,
        _ => Kind::Other,
    };
    root.descendants().map(|n| Node { depth: n.ancestors().count(), kind: kind(n) }).collect()
}

/// `comrak::markdown_to_html`, with raw HTML left out as it is by default: a
/// function of the text and the dialect alone.
#[verifier::external_body]
fn to_html(markdown: &str, dialect: Dialect) -> (r: String)
    ensures
        r@ == markdown_html(markdown@, dialect),
{
    let mut options = comrak::Options::default();
    options.extension.strikethrough = dialect.strikethrough;
    options.extension.table = dialect.table;
    options.extension.autolink = dialect.autolink;
    comrak::markdown_to_html(markdown, &options)
}

/// `comrak::parse_document`, then `NodeValue::Raw` for the nodes that are
/// replaced, then `comrak::format_html`: a function of the text, the dialect
/// and the replacements alone. Only texts are replaced: the formatter stops the
/// program where something that holds other nodes is not what it was.
#[verifier::external_body]
fn to_edited_html(markdown: &str, dialect: Dialect, edits: &Vec<Option<String>>) -> (r: Option<
    String,
>)
    requires
        forall|i: int|
            0 <= i < edits@.len() && (#[trigger] edits@[i]) is Some ==> i < markdown_nodes(
                markdown@,
                dialect,
            ).len() && markdown_nodes(markdown@, dialect)[i].kind is Text,
    ensures
        text_of(r) == edited_html(markdown@, dialect, edits_view(edits@)),
{
    let arena = comrak::Arena::new();
    let mut options = comrak::Options::default();
    options.extension.strikethrough = dialect.strikethrough;
    options.extension.table = dialect.table;
    options.extension.autolink = dialect.autolink;
    let root = comrak::parse_document(&arena, markdown, &options);
    for (node, edit) in root.descendants().zip(edits) {
        if let Some(html) = edit {
            node.data.borrow_mut().value = comrak::nodes::NodeValue::Raw(html.clone());
        }
    }
    let mut html = String::new();
    comrak::format_html(root, &options, &mut html).ok().map(|_| html)
}

/// `ammonia::Builder::clean` with its default allow list, these schemes, this
/// `rel`, these classes, and `kept_value` as the attribute filter: a function
/// of the arguments alone.
#[verifier::external_body]
fn clean(html: &str, schemes: &[&str], rel: &str, classes: &[(&str, &str)]) -> (r: String)
    ensures
        r@ == cleaned_html(
            html@,
            Seq::new(schemes@.len(), |i: int| schemes@[i]@),
            rel@,
            Seq::new(classes@.len(), |i: int| (classes@[i].0@, classes@[i].1@)),
        ),
{
    let classes: HashMap<&str, HashSet<&str>> =
        classes.iter().map(|(element, class)| (*element, HashSet::from([*class]))).collect();
    ammonia::Builder::default()
        .url_schemes(schemes.iter().copied().collect())
        .link_rel(Some(rel))
        .allowed_classes(classes)
        .attribute_filter(|element, name, value| kept_value(element, name, value).map(Into::into))
        .clean(html)
        .to_string()
}

/// Which value an attribute keeps.
///
/// An `img` is fetched by the browser without anyone deciding to; a link is
/// followed on purpose. So a picture may only come from this instance:
/// otherwise the operator of some other host learns the address and the moment
/// of every reader.
pub open spec fn value_kept(element: Seq<char>, attribute: Seq<char>, value: Seq<char>) -> bool {
    element == "img"@ && attribute == "src"@ ==> value.len() > 0 && value[0] == '/'
}

pub fn kept_value<'a>(element: &str, attribute: &str, value: &'a str) -> (r: Option<&'a str>)
    ensures
        r == if value_kept(element@, attribute@, value@) {
            Some(value)
        } else {
            None
        },
{
    if same(element, "img") && same(attribute, "src") {
        if value.unicode_len() == 0 || value.get_char(0) != '/' {
            return None;
        }
    }
    Some(value)
}

pub open spec fn link_schemes() -> Seq<Seq<char>> {
    seq!["http"@, "https"@, "mailto"@]
}

/// The one class that may pass, where a post has been marked up with mentions.
pub open spec fn mention_classes(mentions: bool) -> Seq<(Seq<char>, Seq<char>)> {
    if mentions {
        seq![("span"@, "mention"@)]
    } else {
        Seq::empty()
    }
}

pub open spec fn sanitized(raw: Seq<char>, mentions: bool) -> Seq<char> {
    cleaned_html(raw, link_schemes(), "noopener noreferrer nofollow"@, mention_classes(mentions))
}

/// The boundary. `mentions` decides whether the one class treff itself writes
/// may pass; nothing a person types can produce it.
pub fn sanitize(raw: &str, mentions: bool) -> (r: String)
    ensures
        r@ == sanitized(raw@, mentions),
{
    let schemes = ["http", "https", "mailto"];
    assert(Seq::new(schemes@.len(), |i: int| schemes@[i]@) == link_schemes());
    let mut classes: Vec<(&str, &str)> = Vec::new();
    if mentions {
        classes.push(("span", "mention"));
    }
    assert(Seq::new(classes@.len(), |i: int| (classes@[i].0@, classes@[i].1@)) == mention_classes(
        mentions,
    ));
    clean(raw, &schemes, "noopener noreferrer nofollow", &classes)
}

/// A post as a page shows it, with no mention marked.
pub open spec fn rendered(markdown: Seq<char>) -> Seq<char> {
    sanitized(markdown_html(markdown, spoken()), false)
}

/// Two stages, and both are needed: the renderer leaves raw HTML out, and the
/// sanitizer throws away everything that is not on its allow list. **The
/// sanitizer is the boundary.**
pub fn render(markdown: &str) -> (r: String)
    ensures
        r@ == rendered(markdown@),
{
    let raw = to_html(markdown, options());
    sanitize(&raw, false)
}

/// Is this character a letter or a digit in any alphabet?
pub uninterp spec fn alphanumeric(c: char) -> bool;

/// `char::is_alphanumeric`, by Unicode's tables. In ASCII those are the letters
/// and the digits.
pub assume_specification[ char::is_alphanumeric ](c: char) -> (r: bool)
    ensures
        r == alphanumeric(c),
        c <= '\u{7f}' ==> r == ('a' <= c <= 'z' || 'A' <= c <= 'Z' || '0' <= c <= '9'),
;

/// Could this character stand in front of the `@` of an address?
pub open spec fn part_of_address(c: char) -> bool {
    alphanumeric(c) || c == '.' || c == '_' || c == '%' || c == '+' || c == '-'
}

/// Where the run of handle characters from `i` on ends.
pub open spec fn handle_end(text: Seq<char>, i: int) -> int
    decreases text.len() - i,
{
    if 0 <= i < text.len() && handle_char(text[i]) {
        handle_end(text, i + 1)
    } else {
        i
    }
}

/// Trailing `.`, `-` and `_` belong to the sentence, not the handle.
pub open spec fn without_tail(text: Seq<char>, from: int, end: int) -> int
    decreases end - from,
{
    if from < end <= text.len() && (text[end - 1] == '.' || text[end - 1] == '_' || text[end - 1]
        == '-') {
        without_tail(text, from, end - 1)
    } else {
        end
    }
}

/// Where a mention stands in a piece of prose, and whom it names.
#[derive(Debug)]
pub struct Span {
    pub start: usize,
    pub end: usize,
    pub handle: String,
}

pub struct SpanView {
    pub start: int,
    pub end: int,
    pub handle: Seq<char>,
}

impl View for Span {
    type V = SpanView;

    open spec fn view(&self) -> SpanView {
        SpanView { start: self.start as int, end: self.end as int, handle: self.handle@ }
    }
}

pub open spec fn spans_view(spans: Seq<Span>) -> Seq<SpanView> {
    Seq::new(spans.len(), |i: int| spans[i]@)
}

/// The mention that begins at `i`, if one does.
///
/// An `@` counts only at the start or after a character that could not be part
/// of an address, and only if what follows is a handle and is not itself
/// followed by another `@`.
pub open spec fn span_at(text: Seq<char>, i: int) -> Option<SpanView> {
    if !(0 <= i < text.len()) || text[i] != '@' || (i > 0 && part_of_address(text[i - 1])) {
        None
    } else {
        let whole = handle_end(text, i + 1);
        if whole < text.len() && text[whole] == '@' {
            None
        } else {
            let end = without_tail(text, i + 1, whole);
            match handle_of(text.subrange(i + 1, end)) {
                Some(handle) => Some(SpanView { start: i, end, handle }),
                None => None,
            }
        }
    }
}

/// The mentions that begin at `i` or later.
pub open spec fn spans_from(text: Seq<char>, i: int) -> Seq<SpanView>
    decreases text.len() - i,
{
    if !(0 <= i < text.len()) {
        Seq::empty()
    } else {
        let rest = spans_from(text, i + 1);
        match span_at(text, i) {
            Some(span) => seq![span] + rest,
            None => rest,
        }
    }
}

proof fn handle_end_bounds(text: Seq<char>, i: int)
    requires
        0 <= i <= text.len(),
    ensures
        i <= handle_end(text, i) <= text.len(),
        forall|k: int| i <= k < handle_end(text, i) ==> handle_char(#[trigger] text[k]),
        handle_end(text, i) < text.len() ==> !handle_char(text[handle_end(text, i)]),
    decreases text.len() - i,
{
    if i < text.len() && handle_char(text[i]) {
        handle_end_bounds(text, i + 1);
    }
}

proof fn without_tail_bounds(text: Seq<char>, from: int, end: int)
    requires
        0 <= from <= end <= text.len(),
    ensures
        from <= without_tail(text, from, end) <= end,
    decreases end - from,
{
    if from < end && (text[end - 1] == '.' || text[end - 1] == '_' || text[end - 1] == '-') {
        without_tail_bounds(text, from, end - 1);
    }
}

/// A mention is an `@` and the characters of a handle behind it, nothing else.
proof fn span_shape(text: Seq<char>, i: int)
    requires
        span_at(text, i) is Some,
    ensures
        ({
            let span = span_at(text, i)->0;
            &&& span.start == i
            &&& i + 1 < span.end <= text.len()
            &&& text[i] == '@'
            &&& forall|k: int| i < k < span.end ==> handle_char(#[trigger] text[k])
            &&& handle_of(text.subrange(i + 1, span.end)) == Some(span.handle)
        }),
{
    handle_end_bounds(text, i + 1);
    without_tail_bounds(text, i + 1, handle_end(text, i + 1));
}

/// The mentions of a text stand one after the other and do not overlap.
pub proof fn spans_are_in_order(text: Seq<char>, i: int)
    requires
        0 <= i,
    ensures
        ({
            let spans = spans_from(text, i);
            &&& forall|k: int|
                0 <= k < spans.len() ==> i <= (#[trigger] spans[k]).start && spans[k].start + 1
                    < spans[k].end <= text.len() && span_at(text, spans[k].start) == Some(spans[k])
            &&& forall|k: int, l: int|
                0 <= k < l < spans.len() ==> (#[trigger] spans[k]).end <= (
                #[trigger] spans[l]).start
        }),
    decreases text.len() - i,
{
    if i < text.len() {
        spans_are_in_order(text, i + 1);
        let spans = spans_from(text, i);
        let rest = spans_from(text, i + 1);
        if let Some(span) = span_at(text, i) {
            span_shape(text, i);
            assert(spans[0] == span);
            assert forall|k: int| 0 <= k < spans.len() implies i <= (#[trigger] spans[k]).start
                && spans[k].start + 1 < spans[k].end <= text.len() && span_at(
                text,
                spans[k].start,
            ) == Some(spans[k]) by {
                if k > 0 {
                    assert(spans[k] == rest[k - 1]);
                }
            }
            assert forall|k: int, l: int| 0 <= k < l < spans.len() implies (
            #[trigger] spans[k]).end <= (#[trigger] spans[l]).start by {
                assert(spans[l] == rest[l - 1]);
                if k > 0 {
                    assert(spans[k] == rest[k - 1]);
                } else {
                    let start = spans[l].start;
                    span_shape(text, start);
                    if start < span.end {
                        assert(handle_char(text[start]));
                    }
                }
            }
        }
    }
}

/// Where the mentions are in one piece of prose: from which character to which
/// the `@handle` stands, and the handle in small letters.
pub fn mention_spans(text: &[char]) -> (r: Vec<Span>)
    ensures
        spans_view(r@) == spans_from(text@, 0),
{
    let mut out: Vec<Span> = Vec::new();
    let mut i: usize = 0;
    assert(spans_view(out@) + spans_from(text@, 0) == spans_from(text@, 0));
    while i < text.len()
        invariant
            i <= text@.len(),
            spans_view(out@) + spans_from(text@, i as int) == spans_from(text@, 0),
        decreases text@.len() - i,
    {
        let ghost before = spans_view(out@);
        let ghost rest = spans_from(text@, i + 1);
        match span_starting(text, i) {
            Some(span) => {
                let ghost found = span@;
                out.push(span);
                assert(spans_view(out@) == before.push(found));
                assert(before.push(found) + rest == before + (seq![found] + rest));
            },
            None => {},
        }
        i += 1;
    }
    assert(spans_view(out@) + Seq::<SpanView>::empty() == spans_view(out@));
    out
}

fn span_starting(text: &[char], i: usize) -> (r: Option<Span>)
    requires
        i < text@.len(),
    ensures
        r is Some == span_at(text@, i as int) is Some,
        r is Some ==> r->0@ == span_at(text@, i as int)->0,
{
    if text[i] != '@' {
        return None;
    }
    if i > 0 {
        let c = text[i - 1];
        if c.is_alphanumeric() || c == '.' || c == '_' || c == '%' || c == '+' || c == '-' {
            return None;
        }
    }
    let mut end: usize = i + 1;
    while end < text.len() && is_handle_char(text[end])
        invariant
            i < end <= text@.len(),
            handle_end(text@, i + 1) == handle_end(text@, end as int),
        decreases text@.len() - end,
    {
        end += 1;
    }
    if end < text.len() && text[end] == '@' {
        return None;
    }
    let ghost whole = end as int;
    while end > i + 1 && (text[end - 1] == '.' || text[end - 1] == '_' || text[end - 1] == '-')
        invariant
            i < end <= text@.len(),
            without_tail(text@, i + 1, whole) == without_tail(text@, i + 1, end as int),
        decreases end,
    {
        end -= 1;
    }
    let name = &text[i + 1..end];
    match handle_in(name) {
        Some(handle) => Some(Span { start: i, end, handle }),
        None => None,
    }
}

/// Is this node text that goes on where the text before it ended? The parser
/// happens to split text; text next to text, at the same depth, is one text.
pub open spec fn goes_on(nodes: Seq<NodeView>, i: int) -> bool {
    0 < i < nodes.len() && nodes[i].kind is Text && nodes[i - 1].kind is Text && nodes[i].depth
        == nodes[i - 1].depth
}

/// The text that begins at this node, with everything that goes on from it.
pub open spec fn run_text(nodes: Seq<NodeView>, i: int) -> Seq<char>
    decreases nodes.len() - i,
{
    let here = nodes[i].kind->Text_0;
    if goes_on(nodes, i + 1) {
        here + run_text(nodes, i + 1)
    } else {
        here
    }
}

/// Does a run of text begin here?
pub open spec fn begins_text(nodes: Seq<NodeView>, i: int) -> bool {
    0 <= i < nodes.len() && nodes[i].kind is Text && !goes_on(nodes, i)
}

/// Does the node stand below a link or an image?
pub open spec fn inside_link(nodes: Seq<NodeView>, i: int) -> bool {
    exists|k: int| 0 <= k < i && #[trigger] is_link_above(nodes, k, i)
}

/// Is the node at `k` a link or an image, with everything after it up to `i`
/// below it?
pub open spec fn is_link_above(nodes: Seq<NodeView>, k: int, i: int) -> bool {
    (nodes[k].kind is Link || nodes[k].kind is Image) && forall|m: int|
        k < m <= i ==> (#[trigger] nodes[m]).depth > nodes[k].depth
}

/// What a reader sees as prose, and so where mentions count.
pub open spec fn is_prose(nodes: Seq<NodeView>, i: int) -> bool {
    begins_text(nodes, i) && !inside_link(nodes, i)
}

/// The handles of these mentions, in order.
pub open spec fn handles_of(spans: Seq<SpanView>) -> Seq<Seq<char>> {
    Seq::new(spans.len(), |i: int| spans[i].handle)
}

/// The handles mentioned in the document from `i` on, in order.
pub open spec fn handles_from(nodes: Seq<NodeView>, i: int) -> Seq<Seq<char>>
    decreases nodes.len() - i,
{
    if !(0 <= i < nodes.len()) {
        Seq::empty()
    } else {
        let rest = handles_from(nodes, i + 1);
        if is_prose(nodes, i) {
            handles_of(spans_from(run_text(nodes, i), 0)) + rest
        } else {
            rest
        }
    }
}

/// The handles a document mentions, in small letters, each once, in order of
/// appearance.
pub open spec fn mentioned_in(nodes: Seq<NodeView>) -> Seq<Seq<char>> {
    once_each(handles_from(nodes, 0))
}

/// The handles a post mentions.
pub open spec fn mentioned(markdown: Seq<char>) -> Seq<Seq<char>> {
    mentioned_in(markdown_nodes(markdown, spoken()))
}

fn continues(nodes: &[Node], i: usize) -> (r: bool)
    ensures
        r == goes_on(nodes_view(nodes@), i as int),
{
    if i == 0 || i >= nodes.len() {
        return false;
    }
    let (here, there) = (&nodes[i], &nodes[i - 1]);
    match (&here.kind, &there.kind) {
        (Kind::Text(_), Kind::Text(_)) => here.depth == there.depth,
        _ => false,
    }
}

fn linked(nodes: &[Node], i: usize) -> (r: bool)
    requires
        i < nodes@.len(),
    ensures
        r == inside_link(nodes_view(nodes@), i as int),
{
    let ghost all = nodes_view(nodes@);
    // The shallowest depth met on the way up: only what is shallower still is
    // an ancestor.
    let mut depth: usize = nodes[i].depth;
    let mut k: usize = i;
    assert(all[i as int].depth == depth);
    while k > 0
        invariant
            k <= i < nodes@.len(),
            all == nodes_view(nodes@),
            forall|m: int| k <= m <= i ==> depth <= (#[trigger] all[m]).depth,
            exists|m: int| k <= m <= i && depth == (#[trigger] all[m]).depth,
            forall|m: int| k <= m < i ==> !#[trigger] is_link_above(all, m, i as int),
        decreases k,
    {
        let ghost low = choose|m: int| k <= m <= i && depth == (#[trigger] all[m]).depth;
        k -= 1;
        assert(all[k as int] == nodes@[k as int]@);
        if nodes[k].depth < depth {
            depth = nodes[k].depth;
            match &nodes[k].kind {
                Kind::Link | Kind::Image => {
                    assert(is_link_above(all, k as int, i as int));
                    return true;
                },
                _ => {},
            }
        } else {
            assert(!is_link_above(all, k as int, i as int)) by {
                assert(all[low].depth <= all[k as int].depth);
            }
        }
    }
    false
}

fn run_from(nodes: &[Node], i: usize) -> (r: String)
    requires
        i < nodes@.len(),
        nodes_view(nodes@)[i as int].kind is Text,
    ensures
        r@ == run_text(nodes_view(nodes@), i as int),
{
    let ghost all = nodes_view(nodes@);
    let mut out = String::new();
    let mut k: usize = i;
    loop
        invariant
            i <= k < nodes@.len(),
            all == nodes_view(nodes@),
            all[k as int].kind is Text,
            out@ + run_text(all, k as int) == run_text(all, i as int),
        decreases nodes@.len() - k,
    {
        assert(all[k as int] == nodes@[k as int]@);
        match &nodes[k].kind {
            Kind::Text(t) => {
                let ghost before = out@;
                out.append(t);
                proof {
                    if goes_on(all, k + 1) {
                        assert(before + (t@ + run_text(all, k + 1)) == before + t@ + run_text(
                            all,
                            k + 1,
                        ));
                    }
                }
            },
            _ => {},
        }
        if !continues(nodes, k + 1) {
            return out;
        }
        k += 1;
    }
}

/// Does prose begin at this node?
fn prose_at(nodes: &[Node], i: usize) -> (r: bool)
    requires
        i < nodes@.len(),
    ensures
        r == is_prose(nodes_view(nodes@), i as int),
{
    assert(nodes_view(nodes@)[i as int] == nodes@[i as int]@);
    match &nodes[i].kind {
        Kind::Text(_) => !continues(nodes, i) && !linked(nodes, i),
        _ => false,
    }
}

/// The handles that a parsed document mentions.
pub fn mentions_in(nodes: &[Node]) -> (r: Vec<String>)
    ensures
        texts(r@) == mentioned_in(nodes_view(nodes@)),
{
    let ghost all = nodes_view(nodes@);
    let ghost mut done: Seq<Seq<char>> = Seq::empty();
    let mut out: Vec<String> = Vec::new();
    let mut i: usize = 0;
    assert(done + handles_from(all, 0) == handles_from(all, 0));
    assert(texts(out@) == once_each(done));
    while i < nodes.len()
        invariant
            i <= nodes@.len(),
            all == nodes_view(nodes@),
            done + handles_from(all, i as int) == handles_from(all, 0),
            texts(out@) == once_each(done),
        decreases nodes@.len() - i,
    {
        if prose_at(nodes, i) {
            let run = chars(&run_from(nodes, i));
            let spans = mention_spans(&run);
            let ghost found = handles_of(spans_view(spans@));
            let ghost start = done;
            let mut k: usize = 0;
            assert(start + found.take(0) == start);
            while k < spans.len()
                invariant
                    k <= spans@.len(),
                    found == handles_of(spans_view(spans@)),
                    done == start + found.take(k as int),
                    texts(out@) == once_each(done),
                decreases spans@.len() - k,
            {
                let handle = &spans[k].handle;
                assert(found[k as int] == handle@);
                proof {
                    let next = done.push(handle@);
                    assert(next.drop_last() == done);
                    assert(found.take(k + 1) == found.take(k as int).push(handle@));
                    assert(start + found.take(k + 1) == next);
                    done = next;
                }
                let ghost before = texts(out@);
                if !listed(&out, handle) {
                    out.push(handle.clone());
                    assert(texts(out@) == before.push(handle@));
                }
                k += 1;
            }
            assert(found.take(k as int) == found);
            assert(start + (found + handles_from(all, i + 1)) == start + found + handles_from(
                all,
                i + 1,
            ));
        }
        i += 1;
    }
    assert(done + Seq::<Seq<char>>::empty() == done);
    out
}

/// The handles a post mentions, in small letters, each once, in order of
/// appearance.
///
/// FOUND IN THE PARSED DOCUMENT, NOT WITH A PATTERN OVER THE SOURCE. What a
/// reader sees as code or as a link is not a mention, and only the parser knows
/// where those are.
pub fn mentions(markdown: &str) -> (r: Vec<String>)
    ensures
        texts(r@) == mentioned(markdown@),
{
    let nodes = parse_nodes(markdown, options());
    mentions_in(&nodes)
}

/// The mentions among these whose handle is in the list.
pub open spec fn chosen(spans: Seq<SpanView>, names: Seq<Seq<char>>) -> Seq<SpanView>
    decreases spans.len(),
{
    if spans.len() == 0 {
        Seq::empty()
    } else {
        let before = chosen(spans.drop_last(), names);
        if names.contains(spans.last().handle) {
            before.push(spans.last())
        } else {
            before
        }
    }
}

/// A mention as it is written into the page.
pub open spec fn marked(text: Seq<char>) -> Seq<char> {
    "<span class=\"mention\">"@ + text + "</span>"@
}

/// The text from `at` on, cut up at the mentions: text, mention, text,
/// mention, ..., text.
pub open spec fn cut_up(text: Seq<char>, spans: Seq<SpanView>, at: int) -> Seq<PieceView>
    decreases spans.len(),
{
    if spans.len() == 0 {
        if at < text.len() {
            seq![PieceView::Text(text.subrange(at, text.len() as int))]
        } else {
            Seq::empty()
        }
    } else {
        let span = spans[0];
        let mark = seq![PieceView::Raw(marked(text.subrange(span.start, span.end)))];
        let rest = cut_up(text, spans.drop_first(), span.end);
        if span.start > at {
            seq![PieceView::Text(text.subrange(at, span.start))] + mark + rest
        } else {
            mark + rest
        }
    }
}

/// A character as it is written in HTML text.
pub open spec fn escaped_char(c: char) -> Seq<char> {
    if c == '&' {
        "&amp;"@
    } else if c == '<' {
        "&lt;"@
    } else if c == '>' {
        "&gt;"@
    } else if c == '"' {
        "&quot;"@
    } else if c == '\u{0}' {
        seq!['\u{fffd}']
    } else {
        seq![c]
    }
}

/// A text as it is written in HTML.
pub open spec fn escaped(s: Seq<char>) -> Seq<char>
    decreases s.len(),
{
    if s.len() == 0 {
        Seq::empty()
    } else {
        escaped(s.drop_last()) + escaped_char(s.last())
    }
}

/// The pieces one after the other: text escaped, HTML as it is.
pub open spec fn pieces_html(pieces: Seq<PieceView>) -> Seq<char>
    decreases pieces.len(),
{
    if pieces.len() == 0 {
        Seq::empty()
    } else {
        pieces_html(pieces.drop_last()) + match pieces.last() {
            PieceView::Text(t) => escaped(t),
            PieceView::Raw(html) => html,
        }
    }
}

/// Where the run of text that this node belongs to begins.
pub open spec fn run_start(nodes: Seq<NodeView>, i: int) -> int
    decreases i,
{
    if goes_on(nodes, i) {
        run_start(nodes, i - 1)
    } else {
        i
    }
}

/// The mentions to be marked in the run of text that begins here.
pub open spec fn marks_at(nodes: Seq<NodeView>, i: int, names: Seq<Seq<char>>) -> Seq<SpanView> {
    if is_prose(nodes, i) {
        chosen(spans_from(run_text(nodes, i), 0), names)
    } else {
        Seq::empty()
    }
}

/// What stands in a node's place when the names in the list are marked up: in
/// a run of prose with mentions the whole run, cut up, where the run begins,
/// and nothing where it goes on. Every other node stays as it is.
pub open spec fn edit_at(nodes: Seq<NodeView>, i: int, names: Seq<Seq<char>>) -> Option<Seq<char>> {
    let start = run_start(nodes, i);
    let marks = marks_at(nodes, start, names);
    if marks.len() == 0 {
        None
    } else if start == i {
        Some(pieces_html(cut_up(run_text(nodes, i), marks, 0)))
    } else {
        Some(Seq::empty())
    }
}

pub open spec fn edits_for(nodes: Seq<NodeView>, names: Seq<Seq<char>>) -> Seq<Option<Seq<char>>> {
    Seq::new(nodes.len(), |i: int| edit_at(nodes, i, names))
}

/// Nothing but text is ever replaced.
pub proof fn only_texts_are_replaced(nodes: Seq<NodeView>, i: int, names: Seq<Seq<char>>)
    requires
        0 <= i < nodes.len(),
        edit_at(nodes, i, names) is Some,
    ensures
        nodes[i].kind is Text,
{
}

fn escape_into(out: &mut String, text: &str)
    ensures
        final(out)@ == old(out)@ + escaped(text@),
{
    let all = chars(text);
    let ghost before = out@;
    let mut i: usize = 0;
    assert(before + escaped(all@.take(0)) == before);
    while i < all.len()
        invariant
            i <= all@.len(),
            all@ == text@,
            out@ == before + escaped(all@.take(i as int)),
        decreases all@.len() - i,
    {
        let c = all[i];
        let ghost so_far = escaped(all@.take(i as int));
        assert(all@.take(i + 1).drop_last() == all@.take(i as int));
        assert(all@.take(i + 1).last() == c);
        if c == '&' {
            out.append("&amp;");
        } else if c == '<' {
            out.append("&lt;");
        } else if c == '>' {
            out.append("&gt;");
        } else if c == '"' {
            out.append("&quot;");
        } else if c == '\u{0}' {
            out.push('\u{fffd}');
            assert((before + so_far).push('\u{fffd}') == before + so_far + seq!['\u{fffd}']);
        } else {
            out.push(c);
            assert((before + so_far).push(c) == before + so_far + seq![c]);
        }
        assert(before + so_far + escaped_char(c) == before + (so_far + escaped_char(c)));
        i += 1;
    }
    assert(all@.take(i as int) == text@);
}

fn write_pieces(pieces: &Vec<Piece>) -> (r: String)
    ensures
        r@ == pieces_html(pieces_view(pieces@)),
{
    let ghost all = pieces_view(pieces@);
    let mut out = String::new();
    let mut i: usize = 0;
    assert(all.take(0) == Seq::<PieceView>::empty());
    while i < pieces.len()
        invariant
            i <= pieces@.len(),
            all == pieces_view(pieces@),
            out@ == pieces_html(all.take(i as int)),
        decreases pieces@.len() - i,
    {
        assert(all.take(i + 1).drop_last() == all.take(i as int));
        assert(all.take(i + 1).last() == pieces@[i as int]@);
        match &pieces[i] {
            Piece::Text(t) => escape_into(&mut out, t),
            Piece::Raw(html) => out.append(html),
        }
        i += 1;
    }
    assert(all.take(i as int) == all);
    out
}

fn choose_spans(spans: Vec<Span>, names: &[String]) -> (r: Vec<Span>)
    ensures
        spans_view(r@) == chosen(spans_view(spans@), texts(names@)),
{
    let ghost all = spans_view(spans@);
    let mut out: Vec<Span> = Vec::new();
    let mut i: usize = 0;
    assert(spans_view(out@) == chosen(all.take(0), texts(names@)));
    while i < spans.len()
        invariant
            i <= spans@.len(),
            all == spans_view(spans@),
            spans_view(out@) == chosen(all.take(i as int), texts(names@)),
        decreases spans@.len() - i,
    {
        assert(all.take(i + 1).drop_last() == all.take(i as int));
        assert(all.take(i + 1).last() == spans@[i as int]@);
        let span = &spans[i];
        if listed(names, &span.handle) {
            let ghost before = spans_view(out@);
            out.push(Span { start: span.start, end: span.end, handle: span.handle.clone() });
            assert(spans_view(out@) == before.push(span@));
        }
        i += 1;
    }
    assert(all.take(i as int) == all);
    out
}

/// Choosing among mentions leaves them in order.
proof fn chosen_are_among(spans: Seq<SpanView>, names: Seq<Seq<char>>, len: int)
    requires
        forall|k: int|
            0 <= k < spans.len() ==> 0 <= (#[trigger] spans[k]).start < spans[k].end <= len,
        forall|k: int, l: int|
            0 <= k < l < spans.len() ==> (#[trigger] spans[k]).end <= (#[trigger] spans[l]).start,
    ensures
        ({
            let kept = chosen(spans, names);
            &&& kept.len() <= spans.len()
            &&& forall|k: int|
                0 <= k < kept.len() ==> spans.contains(#[trigger] kept[k]) && names.contains(
                    kept[k].handle,
                ) && 0 <= kept[k].start < kept[k].end <= len && kept[k].end <= spans.last().end
            &&& forall|k: int, l: int|
                0 <= k < l < kept.len() ==> (#[trigger] kept[k]).end <= (#[trigger] kept[l]).start
        }),
    decreases spans.len(),
{
    if spans.len() > 0 {
        let front = spans.drop_last();
        chosen_are_among(front, names, len);
        let before = chosen(front, names);
        let kept = chosen(spans, names);
        assert(spans[spans.len() - 1] == spans.last());
        assert forall|k: int| 0 <= k < before.len() implies spans.contains(#[trigger] before[k])
            && before[k].end <= spans.last().start by {
            let j = choose|j: int| 0 <= j < front.len() && front[j] == before[k];
            assert(spans[j] == before[k]);
            assert(front.last() == spans[front.len() - 1]);
        }
        assert forall|k: int| 0 <= k < kept.len() implies spans.contains(#[trigger] kept[k])
            && names.contains(kept[k].handle) && 0 <= kept[k].start < kept[k].end <= len
            && kept[k].end <= spans.last().end by {
            if k < before.len() {
                assert(kept[k] == before[k]);
            }
        }
        assert forall|k: int, l: int| 0 <= k < l < kept.len() implies (#[trigger] kept[k]).end <= (
        #[trigger] kept[l]).start by {
            assert(kept[k] == before[k]);
            if l < before.len() {
                assert(kept[l] == before[l]);
            }
        }
    }
}

fn cut(text: &[char], spans: &Vec<Span>) -> (r: Vec<Piece>)
    requires
        forall|k: int|
            0 <= k < spans@.len() ==> (#[trigger] spans@[k]).start < spans@[k].end <= text@.len(),
        forall|k: int, l: int|
            0 <= k < l < spans@.len() ==> (#[trigger] spans@[k]).end <= (
            #[trigger] spans@[l]).start,
    ensures
        pieces_view(r@) == cut_up(text@, spans_view(spans@), 0),
{
    let ghost all = spans_view(spans@);
    let ghost whole = cut_up(text@, all, 0);
    let mut out: Vec<Piece> = Vec::new();
    let mut at: usize = 0;
    let mut k: usize = 0;
    assert(all.skip(0) == all);
    assert(pieces_view(out@) + cut_up(text@, all.skip(0), 0) == whole);
    while k < spans.len()
        invariant
            k <= spans@.len(),
            all == spans_view(spans@),
            at <= text@.len(),
            forall|j: int|
                0 <= j < spans@.len() ==> (#[trigger] spans@[j]).start < spans@[j].end
                    <= text@.len(),
            forall|j: int, l: int|
                0 <= j < l < spans@.len() ==> (#[trigger] spans@[j]).end <= (
                #[trigger] spans@[l]).start,
            k == 0 ==> at == 0,
            k > 0 ==> at == spans@[k - 1].end,
            pieces_view(out@) + cut_up(text@, all.skip(k as int), at as int) == whole,
        decreases spans@.len() - k,
    {
        let span = &spans[k];
        let ghost left = all.skip(k as int);
        assert(left[0] == span@);
        assert(left.drop_first() == all.skip(k + 1));
        let ghost start = pieces_view(out@);
        let ghost rest = cut_up(text@, all.skip(k + 1), span.end as int);
        if span.start > at {
            let front = slice_string(text, at, span.start);
            out.push(Piece::Text(front));
        }
        let ghost middle = pieces_view(out@);
        let name = slice_string(text, span.start, span.end);
        let html = "<span class=\"mention\">".to_owned().concat(&name).concat("</span>");
        let ghost mark = PieceView::Raw(html@);
        out.push(Piece::Raw(html));
        proof {
            assert(pieces_view(out@) == middle.push(mark));
            if span.start > at {
                let front = PieceView::Text(text@.subrange(at as int, span.start as int));
                assert(middle == start.push(front));
                assert(start.push(front).push(mark) + rest == start + (seq![front] + seq![mark]
                    + rest));
            } else {
                assert(middle == start);
                assert(start.push(mark) + rest == start + (seq![mark] + rest));
            }
        }
        at = span.end;
        k += 1;
    }
    let ghost start = pieces_view(out@);
    assert(all.skip(k as int).len() == 0);
    if at < text.len() {
        let tail = slice_string(text, at, text.len());
        let ghost last = PieceView::Text(tail@);
        out.push(Piece::Text(tail));
        assert(pieces_view(out@) == start + seq![last]);
    } else {
        assert(start + Seq::<PieceView>::empty() == start);
    }
    out
}

fn edit(nodes: &[Node], i: usize, names: &[String]) -> (r: Option<String>)
    requires
        i < nodes@.len(),
    ensures
        text_of(r) == edit_at(nodes_view(nodes@), i as int, texts(names@)),
{
    let ghost all = nodes_view(nodes@);
    let mut start: usize = i;
    while continues(nodes, start)
        invariant
            start <= i < nodes@.len(),
            all == nodes_view(nodes@),
            run_start(all, start as int) == run_start(all, i as int),
        decreases start,
    {
        start -= 1;
    }
    if !prose_at(nodes, start) {
        return None;
    }
    let run = chars(&run_from(nodes, start));
    let spans = mention_spans(&run);
    let ghost found = spans_view(spans@);
    let marks = choose_spans(spans, names);
    proof {
        spans_are_in_order(run@, 0);
        chosen_are_among(found, texts(names@), run@.len() as int);
        let kept = spans_view(marks@);
        assert(kept.len() == marks@.len());
        assert(forall|k: int| 0 <= k < marks@.len() ==> (#[trigger] marks@[k])@ == kept[k]);
    }
    if marks.len() == 0 {
        return None;
    }
    if start < i {
        return Some(String::new());
    }
    Some(write_pieces(&cut(&run, &marks)))
}

/// What stands in the place of every node of a document when these handles are
/// marked up as mentions.
pub fn edits(nodes: &[Node], names: &[String]) -> (r: Vec<Option<String>>)
    ensures
        edits_view(r@) == edits_for(nodes_view(nodes@), texts(names@)),
{
    let mut out: Vec<Option<String>> = Vec::new();
    let mut i: usize = 0;
    while i < nodes.len()
        invariant
            i <= nodes@.len(),
            out@.len() == i,
            forall|k: int|
                0 <= k < i ==> text_of(#[trigger] out@[k]) == edit_at(
                    nodes_view(nodes@),
                    k,
                    texts(names@),
                ),
        decreases nodes@.len() - i,
    {
        out.push(edit(nodes, i, names));
        i += 1;
    }
    assert(edits_view(out@) =~= edits_for(nodes_view(nodes@), texts(names@)));
    out
}

/// A post as a page shows it, with these handles marked as mentions.
pub open spec fn rendered_with(markdown: Seq<char>, mentionable: Seq<Seq<char>>) -> Seq<char> {
    if mentionable.len() == 0 {
        rendered(markdown)
    } else {
        match edited_html(
            markdown,
            spoken(),
            edits_for(markdown_nodes(markdown, spoken()), mentionable),
        ) {
            Some(raw) => sanitized(raw, true),
            None => rendered(markdown),
        }
    }
}

/// [`render`], with every `@handle` in `mentionable` marked up as a mention.
///
/// Anything not in the list stays text: an unknown handle and one that may not
/// be told about this post render identically, so the page never confirms that
/// somebody exists.
///
/// The mark is HTML that only a program can ask the renderer for: raw HTML
/// typed into a post is still left out, so nobody can write a mention by hand.
/// And the sanitizer still runs over the result, now allowing exactly one class
/// on exactly one element. Should the rendering fail, the plain one is the safe
/// thing to show.
pub fn render_with(markdown: &str, mentionable: &[String]) -> (r: String)
    ensures
        r@ == rendered_with(markdown@, texts(mentionable@)),
{
    if mentionable.len() == 0 {
        return render(markdown);
    }
    let nodes = parse_nodes(markdown, options());
    let changes = edits(&nodes, mentionable);
    proof {
        let parsed = markdown_nodes(markdown@, spoken());
        let wanted = edits_for(parsed, texts(mentionable@));
        assert(edits_view(changes@).len() == changes@.len());
        assert forall|i: int|
            0 <= i < changes@.len() && (#[trigger] changes@[i]) is Some implies i < parsed.len()
            && parsed[i].kind is Text by {
            assert(edits_view(changes@)[i] == wanted[i]);
            only_texts_are_replaced(parsed, i, texts(mentionable@));
        }
    }
    match to_edited_html(markdown, options(), &changes) {
        Some(raw) => sanitize(&raw, true),
        None => render(markdown),
    }
}

/// What a reader sees of a piece: its text, or the text inside the mark.
pub open spec fn shown(piece: PieceView) -> Seq<char> {
    match piece {
        PieceView::Text(t) => t,
        PieceView::Raw(html) => html.subrange(
            "<span class=\"mention\">"@.len() as int,
            html.len() - "</span>"@.len(),
        ),
    }
}

pub open spec fn all_shown(pieces: Seq<PieceView>) -> Seq<char>
    decreases pieces.len(),
{
    if pieces.len() == 0 {
        Seq::empty()
    } else {
        shown(pieces[0]) + all_shown(pieces.drop_first())
    }
}

proof fn all_shown_behind(piece: PieceView, rest: Seq<PieceView>)
    ensures
        all_shown(seq![piece] + rest) == shown(piece) + all_shown(rest),
{
    let all = seq![piece] + rest;
    assert(all.drop_first() == rest);
}

proof fn a_mark_shows_its_text(text: Seq<char>)
    ensures
        shown(PieceView::Raw(marked(text))) == text,
{
    let front = "<span class=\"mention\">"@;
    let back = "</span>"@;
    assert(marked(text).subrange(front.len() as int, marked(text).len() - back.len()) == text);
}

proof fn cutting_up_from(text: Seq<char>, spans: Seq<SpanView>, at: int)
    requires
        0 <= at <= text.len(),
        forall|k: int|
            0 <= k < spans.len() ==> at <= (#[trigger] spans[k]).start < spans[k].end <= text.len(),
        forall|k: int, l: int|
            0 <= k < l < spans.len() ==> (#[trigger] spans[k]).end <= (#[trigger] spans[l]).start,
    ensures
        all_shown(cut_up(text, spans, at)) == text.skip(at),
    decreases spans.len(),
{
    if spans.len() == 0 {
        if at < text.len() {
            let last = PieceView::Text(text.subrange(at, text.len() as int));
            all_shown_behind(last, Seq::empty());
            assert(seq![last] + Seq::<PieceView>::empty() == seq![last]);
            assert(text.subrange(at, text.len() as int) + Seq::<char>::empty() == text.skip(at));
        } else {
            assert(text.skip(at) == Seq::<char>::empty());
        }
    } else {
        let span = spans[0];
        let name = text.subrange(span.start, span.end);
        let mark = PieceView::Raw(marked(name));
        let left = spans.drop_first();
        assert forall|k: int| 0 <= k < left.len() implies span.end <= (#[trigger] left[k]).start
            < left[k].end <= text.len() by {
            assert(left[k] == spans[k + 1]);
        }
        assert forall|k: int, l: int| 0 <= k < l < left.len() implies (#[trigger] left[k]).end <= (
        #[trigger] left[l]).start by {
            assert(left[k] == spans[k + 1] && left[l] == spans[l + 1]);
        }
        cutting_up_from(text, left, span.end);
        let rest = cut_up(text, left, span.end);
        all_shown_behind(mark, rest);
        a_mark_shows_its_text(name);
        if span.start > at {
            let front = PieceView::Text(text.subrange(at, span.start));
            all_shown_behind(front, seq![mark] + rest);
            assert(seq![front] + seq![mark] + rest == seq![front] + (seq![mark] + rest));
            assert(text.subrange(at, span.start) + (name + text.skip(span.end)) == text.skip(at));
        } else {
            assert(name + text.skip(span.end) == text.skip(at));
        }
    }
}

/// Marking mentions changes nothing of what there is to read: the pieces of a
/// text, read one after the other, are the text.
pub proof fn marking_keeps_the_text(text: Seq<char>, names: Seq<Seq<char>>)
    ensures
        all_shown(cut_up(text, chosen(spans_from(text, 0), names), 0)) == text,
{
    spans_are_in_order(text, 0);
    chosen_are_among(spans_from(text, 0), names, text.len() as int);
    cutting_up_from(text, chosen(spans_from(text, 0), names), 0);
    assert(text.skip(0) == text);
}

/// Only a mention of somebody in the list is marked, and a mark holds an `@`
/// and the characters of a handle: nothing in it needs escaping.
pub proof fn marks_are_mentions(text: Seq<char>, names: Seq<Seq<char>>, k: int)
    requires
        0 <= k < chosen(spans_from(text, 0), names).len(),
    ensures
        ({
            let span = chosen(spans_from(text, 0), names)[k];
            &&& names.contains(span.handle)
            &&& text[span.start] == '@'
            &&& handle_of(text.subrange(span.start + 1, span.end)) == Some(span.handle)
            &&& forall|j: int| span.start < j < span.end ==> handle_char(#[trigger] text[j])
        }),
{
    let spans = spans_from(text, 0);
    spans_are_in_order(text, 0);
    chosen_are_among(spans, names, text.len() as int);
    let span = chosen(spans, names)[k];
    let j = choose|j: int| 0 <= j < spans.len() && spans[j] == span;
    assert(span_at(text, spans[j].start) == Some(spans[j]));
    span_shape(text, span.start);
}

/// THE PAGE MUST NOT TELL WHO EXISTS. With nothing mentionable the page is
/// exactly the plain one.
pub proof fn nothing_mentionable_is_plain(markdown: Seq<char>)
    ensures
        rendered_with(markdown, Seq::empty()) == rendered(markdown),
{
}

/// Where nobody in the list is mentioned, nothing is replaced.
pub proof fn nobody_named_nothing_replaced(nodes: Seq<NodeView>, names: Seq<Seq<char>>, i: int)
    requires
        forall|k: int|
            0 <= k < spans_from(run_text(nodes, run_start(nodes, i)), 0).len() ==> !names.contains(
                (#[trigger] spans_from(run_text(nodes, run_start(nodes, i)), 0)[k]).handle,
            ),
    ensures
        edit_at(nodes, i, names) is None,
{
    let run = run_text(nodes, run_start(nodes, i));
    spans_are_in_order(run, 0);
    chosen_are_among(spans_from(run, 0), names, run.len() as int);
    if chosen(spans_from(run, 0), names).len() > 0 {
        let span = chosen(spans_from(run, 0), names)[0];
        assert(spans_from(run, 0).contains(span));
    }
}

/// Escaped text opens no tag and closes no attribute.
pub proof fn escaped_text_is_inert(s: Seq<char>)
    ensures
        forall|i: int|
            0 <= i < escaped(s).len() ==> (#[trigger] escaped(s)[i]) != '<' && escaped(s)[i] != '>'
                && escaped(s)[i] != '"',
    decreases s.len(),
{
    if s.len() > 0 {
        escaped_text_is_inert(s.drop_last());
        reveal_strlit("&amp;");
        reveal_strlit("&lt;");
        reveal_strlit("&gt;");
        reveal_strlit("&quot;");
        let front = escaped(s.drop_last());
        let back = escaped_char(s.last());
        assert forall|i: int| 0 <= i < escaped(s).len() implies (#[trigger] escaped(s)[i]) != '<'
            && escaped(s)[i] != '>' && escaped(s)[i] != '"' by {
            if i < front.len() {
                assert(escaped(s)[i] == front[i]);
            } else {
                assert(escaped(s)[i] == back[i - front.len()]);
            }
        }
    }
}

proof fn prose_is_mentioned(nodes: Seq<NodeView>, from: int, i: int, k: int)
    requires
        0 <= from <= i < nodes.len(),
        is_prose(nodes, i),
        0 <= k < spans_from(run_text(nodes, i), 0).len(),
    ensures
        handles_from(nodes, from).contains(spans_from(run_text(nodes, i), 0)[k].handle),
    decreases i - from,
{
    let all = handles_from(nodes, from);
    let here = handles_of(spans_from(run_text(nodes, from), 0));
    let rest = handles_from(nodes, from + 1);
    let handle = spans_from(run_text(nodes, i), 0)[k].handle;
    if from == i {
        assert(all[k] == handle);
    } else {
        prose_is_mentioned(nodes, from + 1, i, k);
        let j = choose|j: int| 0 <= j < rest.len() && rest[j] == handle;
        if is_prose(nodes, from) {
            assert(all[here.len() + j] == handle);
        } else {
            assert(all[j] == handle);
        }
    }
}

proof fn raw_pieces_are_marks(text: Seq<char>, marks: Seq<SpanView>, at: int, p: int)
    requires
        0 <= p < cut_up(text, marks, at).len(),
        cut_up(text, marks, at)[p] is Raw,
    ensures
        exists|k: int|
            0 <= k < marks.len() && cut_up(text, marks, at)[p] == PieceView::Raw(
                marked(text.subrange((#[trigger] marks[k]).start, marks[k].end)),
            ),
    decreases marks.len(),
{
    if marks.len() > 0 {
        let span = marks[0];
        let rest = cut_up(text, marks.drop_first(), span.end);
        let front: int = if span.start > at {
            2
        } else {
            1
        };
        if p < front {
            assert(p == front - 1);
            assert(cut_up(text, marks, at)[p] == PieceView::Raw(
                marked(text.subrange(marks[0].start, marks[0].end)),
            ));
        } else {
            assert(rest[p - front] == cut_up(text, marks, at)[p]);
            raw_pieces_are_marks(text, marks.drop_first(), span.end, p - front);
            let k = choose|k: int|
                0 <= k < marks.drop_first().len() && rest[p - front] == PieceView::Raw(
                    marked(
                        text.subrange(
                            (#[trigger] marks.drop_first()[k]).start,
                            marks.drop_first()[k].end,
                        ),
                    ),
                );
            assert(marks[k + 1] == marks.drop_first()[k]);
        }
    }
}

/// Whatever HTML is put into a document is a mark round an `@handle`, and that
/// handle is in the list and among the mentions of the whole text: a handle
/// nobody listed, one in code and one in a link carry no mark.
pub proof fn only_the_mentioned_are_marked(
    markdown: Seq<char>,
    names: Seq<Seq<char>>,
    i: int,
    p: int,
)
    requires
        ({
            let nodes = markdown_nodes(markdown, spoken());
            let pieces = cut_up(run_text(nodes, i), marks_at(nodes, i, names), 0);
            &&& 0 <= i < nodes.len()
            &&& 0 <= p < pieces.len()
            &&& pieces[p] is Raw
        }),
    ensures
        ({
            let nodes = markdown_nodes(markdown, spoken());
            let text = run_text(nodes, i);
            let marks = marks_at(nodes, i, names);
            exists|k: int|
                {
                    &&& 0 <= k < marks.len()
                    &&& cut_up(text, marks, 0)[p] == PieceView::Raw(
                        marked(text.subrange((#[trigger] marks[k]).start, marks[k].end)),
                    )
                    &&& text[marks[k].start] == '@'
                    &&& handle_of(text.subrange(marks[k].start + 1, marks[k].end)) == Some(
                        marks[k].handle,
                    )
                    &&& names.contains(marks[k].handle)
                    &&& mentioned(markdown).contains(marks[k].handle)
                }
        }),
{
    let nodes = markdown_nodes(markdown, spoken());
    let text = run_text(nodes, i);
    let marks = marks_at(nodes, i, names);
    let spans = spans_from(text, 0);
    raw_pieces_are_marks(text, marks, 0, p);
    let k = choose|k: int|
        0 <= k < marks.len() && cut_up(text, marks, 0)[p] == PieceView::Raw(
            marked(text.subrange((#[trigger] marks[k]).start, marks[k].end)),
        );
    assert(is_prose(nodes, i));
    marks_are_mentions(text, names, k);
    spans_are_in_order(text, 0);
    chosen_are_among(spans, names, text.len() as int);
    let j = choose|j: int| 0 <= j < spans.len() && spans[j] == marks[k];
    prose_is_mentioned(nodes, 0, i, j);
    each_once(handles_from(nodes, 0));
    assert(mentioned(markdown).contains(marks[k].handle));
}

} // verus!
