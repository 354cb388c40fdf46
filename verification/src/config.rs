//! The configuration: which addresses this instance serves, and who may do
//! what in them. Read once at startup; a file that cannot be trusted stops the
//! program instead of being repaired into something plausible.
use crate::clock::{goes_by, resolve, zone_name};
use crate::complaints::{complain, complaint, what_does_not_fit_is_named, Part};
use crate::text::{
    ascii_lower, ascii_lower_idempotent, chars, find_char, first_at, first_at_found,
    first_at_is_first, lower_char, same, text_of, texts, to_ascii_lower,
};
use crate::tree::{entries_view, entry, items_view, list_view, table_view, Tree, TreeView};
use toml::de::DeValue;
use vstd::prelude::*;
use vstd::view::View as _;

verus! {

/// How a space shows its topics.
#[derive(Debug, Clone, Copy, PartialEq, Eq, Structural)]
pub enum View {
    Timeline,
    Topics,
}

#[derive(Debug, Clone)]
pub struct Category {
    pub slug: String,
    pub title: String,
    /// Who may open a topic here. An empty list means nobody, never everybody.
    pub post: Vec<String>,
    /// Who may reply here. Empty means nobody, for the same reason.
    pub reply: Vec<String>,
}

pub struct CategoryView {
    pub slug: Seq<char>,
    pub title: Seq<char>,
    pub post: Seq<Seq<char>>,
    pub reply: Seq<Seq<char>>,
}

impl vstd::view::View for Category {
    type V = CategoryView;

    open spec fn view(&self) -> CategoryView {
        CategoryView {
            slug: self.slug@,
            title: self.title@,
            post: texts(self.post@),
            reply: texts(self.reply@),
        }
    }
}

#[derive(Debug, Clone)]
pub struct Space {
    pub host: String,
    pub title: String,
    pub view: View,
    pub read: Vec<String>,
    pub categories: Vec<Category>,
    /// A directory of `YYYY-MM-DD-<name>.md` articles to mirror into this
    /// space's **first** category.
    pub articles: Option<String>,
    /// The largest attachment this space accepts, in bytes.
    pub attachment_max_bytes: u64,
    /// The front matter key that holds an article's title. Those files are
    /// written for something else, and their keys are in their author's
    /// language.
    pub title_key: String,
    /// Where this space came from: a landing page, the other spaces, whatever
    /// the operator wants people to be able to get back to.
    pub home: Option<String>,
}

pub struct SpaceView {
    pub host: Seq<char>,
    pub title: Seq<char>,
    pub view: View,
    pub read: Seq<Seq<char>>,
    pub categories: Seq<CategoryView>,
    pub articles: Option<Seq<char>>,
    pub attachment_max_bytes: u64,
    pub title_key: Seq<char>,
    pub home: Option<Seq<char>>,
}

pub open spec fn categories_view(list: Seq<Category>) -> Seq<CategoryView> {
    Seq::new(list.len(), |i: int| list[i]@)
}

impl vstd::view::View for Space {
    type V = SpaceView;

    open spec fn view(&self) -> SpaceView {
        SpaceView {
            host: self.host@,
            title: self.title@,
            view: self.view,
            read: texts(self.read@),
            categories: categories_view(self.categories@),
            articles: text_of(self.articles),
            attachment_max_bytes: self.attachment_max_bytes,
            title_key: self.title_key@,
            home: text_of(self.home),
        }
    }
}

/// Who may report what happened elsewhere, and where that may lead.
#[derive(Debug, Clone)]
pub struct Events {
    /// The host of the space whose readers see the reports.
    pub space: String,
    /// The hosts a report may link to.
    pub link_hosts: Vec<String>,
}

pub struct EventsView {
    pub space: Seq<char>,
    pub link_hosts: Seq<Seq<char>>,
}

impl vstd::view::View for Events {
    type V = EventsView;

    open spec fn view(&self) -> EventsView {
        EventsView { space: self.space@, link_hosts: texts(self.link_hosts@) }
    }
}

#[derive(Debug)]
pub struct Config {
    /// The zone every timestamp in the interface is shown in, as an IANA name.
    /// Left out, the machine decides.
    pub timezone: Option<String>,
    pub spaces: Vec<Space>,
    pub events: Option<Events>,
}

pub struct ConfigView {
    pub timezone: Option<Seq<char>>,
    pub spaces: Seq<SpaceView>,
    pub events: Option<EventsView>,
}

pub open spec fn spaces_view(list: Seq<Space>) -> Seq<SpaceView> {
    Seq::new(list.len(), |i: int| list[i]@)
}

pub open spec fn events_view(events: Option<Events>) -> Option<EventsView> {
    match events {
        Some(e) => Some(e@),
        None => None,
    }
}

impl vstd::view::View for Config {
    type V = ConfigView;

    open spec fn view(&self) -> ConfigView {
        ConfigView {
            timezone: text_of(self.timezone),
            spaces: spaces_view(self.spaces@),
            events: events_view(self.events),
        }
    }
}

#[derive(Debug)]
pub enum ConfigError {
    Syntax(String),
    DuplicateHost(String),
    NoCategories(String),
    NobodyCanRead(String),
    DuplicateCategory { space: String, slug: String },
    InvalidSlug { space: String, slug: String },
    UnknownTimeZone(String),
}

/// What is wrong with a configuration.
pub enum Fault {
    Syntax(Seq<char>),
    DuplicateHost(Seq<char>),
    NoCategories(Seq<char>),
    NobodyCanRead(Seq<char>),
    DuplicateCategory { space: Seq<char>, slug: Seq<char> },
    InvalidSlug { space: Seq<char>, slug: Seq<char> },
    UnknownTimeZone(Seq<char>),
}

impl vstd::view::View for ConfigError {
    type V = Fault;

    open spec fn view(&self) -> Fault {
        match self {
            ConfigError::Syntax(why) => Fault::Syntax(why@),
            ConfigError::DuplicateHost(h) => Fault::DuplicateHost(h@),
            ConfigError::NoCategories(h) => Fault::NoCategories(h@),
            ConfigError::NobodyCanRead(h) => Fault::NobodyCanRead(h@),
            ConfigError::DuplicateCategory { space, slug } => Fault::DuplicateCategory {
                space: space@,
                slug: slug@,
            },
            ConfigError::InvalidSlug { space, slug } => Fault::InvalidSlug {
                space: space@,
                slug: slug@,
            },
            ConfigError::UnknownTimeZone(z) => Fault::UnknownTimeZone(z@),
        }
    }
}

/// A text between quotes, as `Debug` writes it.
pub uninterp spec fn debug_quoted(s: Seq<char>) -> Seq<char>;

/// `<str as Debug>::fmt`: the text between quotes, with what cannot be shown
/// escaped. What comes out depends on the text alone.
#[verifier::external_body]
fn quoted(s: &str) -> (r: String)
    ensures
        r@ == debug_quoted(s@),
{
    format!("{s:?}")
}

impl ConfigError {
    /// What is said of the error. What a parser has to say is said as it is.
    pub open spec fn text(self) -> Seq<char> {
        match self {
            ConfigError::Syntax(why) => "cannot parse configuration: "@ + why@,
            ConfigError::DuplicateHost(host) => "host "@ + host@ + " is configured twice"@,
            ConfigError::NoCategories(host) => "space "@ + host@ + " has no categories"@,
            ConfigError::NobodyCanRead(host) => "space "@ + host@
                + " would be readable by nobody"@,
            ConfigError::DuplicateCategory { space, slug } => "space "@ + space@
                + " has the category "@ + slug@ + " twice"@,
            ConfigError::InvalidSlug { space, slug } => "space "@ + space@
                + " has the unusable category slug "@ + debug_quoted(slug@),
            ConfigError::UnknownTimeZone(name) => "no time zone is called "@ + debug_quoted(
                name@,
            ),
        }
    }

    pub fn message(&self) -> (r: String)
        ensures
            r@ == self.text(),
    {
        match self {
            ConfigError::Syntax(why) => "cannot parse configuration: ".to_owned().concat(why),
            ConfigError::DuplicateHost(host) => "host ".to_owned().concat(host).concat(
                " is configured twice",
            ),
            ConfigError::NoCategories(host) => "space ".to_owned().concat(host).concat(
                " has no categories",
            ),
            ConfigError::NobodyCanRead(host) => "space ".to_owned().concat(host).concat(
                " would be readable by nobody",
            ),
            ConfigError::DuplicateCategory { space, slug } => "space ".to_owned().concat(
                space,
            ).concat(" has the category ").concat(slug).concat(" twice"),
            ConfigError::InvalidSlug { space, slug } => "space ".to_owned().concat(space).concat(
                " has the unusable category slug ",
            ).concat(&quoted(slug)),
            ConfigError::UnknownTimeZone(name) => "no time zone is called ".to_owned().concat(
                &quoted(name),
            ),
        }
    }
}

/// A slug becomes a path segment, so it is held to the strict set rather than
/// escaped later: lower-case ASCII letters, digits, hyphens, and not empty.
pub open spec fn usable_slug(slug: Seq<char>) -> bool {
    slug.len() > 0 && forall|i: int| 0 <= i < slug.len() ==> slug_char(#[trigger] slug[i])
}

pub open spec fn slug_char(c: char) -> bool {
    'a' <= c <= 'z' || '0' <= c <= '9' || c == '-'
}

pub fn slug_is_usable(slug: &str) -> (r: bool)
    ensures
        r == usable_slug(slug@),
{
    let s = chars(slug);
    let mut i: usize = 0;
    while i < s.len()
        invariant
            i <= s@.len(),
            s@ == slug@,
            forall|k: int| 0 <= k < i ==> slug_char(#[trigger] slug@[k]),
        decreases s@.len() - i,
    {
        let c = s[i];
        if !((c >= 'a' && c <= 'z') || (c >= '0' && c <= '9') || c == '-') {
            assert(!slug_char(slug@[i as int]));
            return false;
        }
        i += 1;
    }
    s.len() > 0
}

pub fn default_title_key() -> (r: String)
    ensures
        r@ == "title"@,
{
    "title".to_owned()
}

pub fn default_attachment_bytes() -> (r: u64)
    ensures
        r == 8 * 1024 * 1024,
{
    8 * 1024 * 1024
}

/// The host without its port and in small letters.
pub open spec fn normalised(host: Seq<char>) -> Seq<char> {
    ascii_lower(host.take(first_at(host, ':')))
}

/// The `Host` header carries case and a possible port; neither means anything
/// for choosing a space.
pub fn normalise(host: &str) -> (r: String)
    ensures
        r@ == normalised(host@),
{
    let s = chars(host);
    let end = find_char(&s, ':');
    let front = &s[0..end];
    assert(front@ == host@.take(end as int));
    to_ascii_lower(front)
}

/// Are these the only keys?
pub open spec fn only_keys(entries: Seq<(Seq<char>, TreeView)>, keys: Seq<Seq<char>>) -> bool {
    forall|i: int| 0 <= i < entries.len() ==> keys.contains((#[trigger] entries[i]).0)
}

/// A text that has to be there.
pub open spec fn text_at(entries: Seq<(Seq<char>, TreeView)>, key: Seq<char>) -> Option<
    Seq<char>,
> {
    match entry(entries, key) {
        Some(TreeView::Text(s)) => Some(s),
        _ => None,
    }
}

/// A text that may be left out, but must not be anything else.
pub open spec fn optional_at(entries: Seq<(Seq<char>, TreeView)>, key: Seq<char>) -> Option<
    Option<Seq<char>>,
> {
    match entry(entries, key) {
        None => Some(None),
        Some(TreeView::Text(s)) => Some(Some(s)),
        _ => None,
    }
}

/// A list of texts that may be left out.
pub open spec fn texts_at(entries: Seq<(Seq<char>, TreeView)>, key: Seq<char>) -> Option<
    Seq<Seq<char>>,
> {
    match entry(entries, key) {
        None => Some(Seq::empty()),
        Some(TreeView::List(items)) => all_texts(items),
        _ => None,
    }
}

pub open spec fn all_texts(items: Seq<TreeView>) -> Option<Seq<Seq<char>>> {
    if forall|i: int| 0 <= i < items.len() ==> (#[trigger] items[i]) is Text {
        Some(Seq::new(items.len(), |i: int| items[i]->Text_0))
    } else {
        None
    }
}

fn known_keys(entries: &Vec<(&str, &Tree)>, keys: &[&str]) -> (r: bool)
    ensures
        r == only_keys(
            fields_view(entries@),
            Seq::new(keys@.len(), |i: int| keys@[i]@),
        ),
{
    let ghost names = Seq::new(keys@.len(), |i: int| keys@[i]@);
    let ghost all = fields_view(entries@);
    let mut i: usize = 0;
    while i < entries.len()
        invariant
            i <= entries@.len(),
            names == Seq::new(keys@.len(), |i: int| keys@[i]@),
            all == fields_view(entries@),
            forall|k: int| 0 <= k < i ==> names.contains((#[trigger] all[k]).0),
        decreases entries@.len() - i,
    {
        let mut found = false;
        let mut j: usize = 0;
        while j < keys.len()
            invariant
                i < entries@.len(),
                j <= keys@.len(),
                names == Seq::new(keys@.len(), |i: int| keys@[i]@),
                all == fields_view(entries@),
                found == exists|k: int| 0 <= k < j && #[trigger] names[k] == all[i as int].0,
            decreases keys@.len() - j,
        {
            if same(keys[j], entries[i].0) {
                assert(names[j as int] == all[i as int].0);
                found = true;
            }
            j += 1;
        }
        if !found {
            assert(!names.contains(all[i as int].0));
            return false;
        }
        i += 1;
    }
    true
}

/// What something with these fields is written as: a table, or a list of the
/// fields in their order. A list may be shorter, and what is left out is then
/// missing; whatever stands behind the last field is not looked at.
pub open spec fn entries_of(tree: TreeView, keys: Seq<Seq<char>>) -> Option<
    Seq<(Seq<char>, TreeView)>,
> {
    match tree {
        TreeView::Table(t) => Some(t),
        TreeView::List(items) => Some(
            Seq::new(
                if items.len() < keys.len() {
                    items.len()
                } else {
                    keys.len()
                },
                |i: int| (keys[i], items[i]),
            ),
        ),
        _ => None,
    }
}

/// The fields, under the keys and no others.
pub open spec fn fields_of(tree: TreeView, keys: Seq<Seq<char>>) -> Option<
    Seq<(Seq<char>, TreeView)>,
> {
    match entries_of(tree, keys) {
        Some(t) => if only_keys(t, keys) {
            Some(t)
        } else {
            None
        },
        None => None,
    }
}

pub open spec fn fields_view(entries: Seq<(&str, &Tree)>) -> Seq<(Seq<char>, TreeView)> {
    Seq::new(entries.len(), |i: int| (entries[i].0@, entries[i].1@))
}

/// What stands in a table, or in a list read in the order of the keys.
pub fn entries_in<'a>(tree: &'a Tree, keys: &[&'a str]) -> (r: Option<Vec<(&'a str, &'a Tree)>>)
    ensures
        ({
            let wanted = entries_of(tree@, Seq::new(keys@.len(), |i: int| keys@[i]@));
            match r {
                Some(t) => wanted == Some(fields_view(t@)),
                None => wanted is None,
            }
        }),
{
    let mut out: Vec<(&'a str, &'a Tree)> = Vec::new();
    match tree {
        Tree::Table(t) => {
            proof {
                table_view(*t);
            }
            let mut i: usize = 0;
            while i < t.len()
                invariant
                    i <= t@.len(),
                    out@.len() == i,
                    forall|k: int|
                        0 <= k < i ==> (#[trigger] out@[k]).0@ == t@[k].0@ && out@[k].1@
                            == t@[k].1@,
                decreases t@.len() - i,
            {
                out.push((t[i].0.as_str(), &t[i].1));
                i += 1;
            }
            assert(fields_view(out@) == entries_view(t@));
            Some(out)
        },
        Tree::List(items) => {
            proof {
                list_view(*items);
            }
            let mut i: usize = 0;
            while i < items.len() && i < keys.len()
                invariant
                    i <= items@.len(),
                    i <= keys@.len(),
                    out@.len() == i,
                    forall|k: int|
                        0 <= k < i ==> (#[trigger] out@[k]).0@ == keys@[k]@ && out@[k].1@
                            == items@[k]@,
                decreases items@.len() - i,
            {
                out.push((keys[i], &items[i]));
                i += 1;
            }
            assert(fields_view(out@) == entries_of(
                tree@,
                Seq::new(keys@.len(), |i: int| keys@[i]@),
            )->0);
            Some(out)
        },
        _ => None,
    }
}

fn fields<'a>(tree: &'a Tree, keys: &[&'a str]) -> (r: Option<Vec<(&'a str, &'a Tree)>>)
    ensures
        ({
            let wanted = fields_of(tree@, Seq::new(keys@.len(), |i: int| keys@[i]@));
            match r {
                Some(t) => wanted == Some(fields_view(t@)),
                None => wanted is None,
            }
        }),
{
    match entries_in(tree, keys) {
        Some(t) => if known_keys(&t, keys) {
            Some(t)
        } else {
            None
        },
        None => None,
    }
}

pub fn field<'a>(entries: &Vec<(&'a str, &'a Tree)>, key: &str) -> (r: Option<&'a Tree>)
    ensures
        r is Some == entry(fields_view(entries@), key@) is Some,
        r is Some ==> r->0@ == entry(fields_view(entries@), key@)->0,
{
    let ghost all = fields_view(entries@);
    let mut i: usize = 0;
    assert(all.skip(0) == all);
    while i < entries.len()
        invariant
            i <= entries@.len(),
            all == fields_view(entries@),
            entry(all, key@) == entry(all.skip(i as int), key@),
        decreases entries@.len() - i,
    {
        assert(all.skip(i as int)[0] == all[i as int]);
        assert(all.skip(i as int).drop_first() == all.skip(i + 1));
        if same(entries[i].0, key) {
            return Some(entries[i].1);
        }
        i += 1;
    }
    None
}

fn read_text(entries: &Vec<(&str, &Tree)>, key: &str) -> (r: Option<String>)
    ensures
        text_of(r) == text_at(fields_view(entries@), key@),
{
    match field(entries, key) {
        Some(Tree::Text(s)) => Some(s.clone()),
        _ => None,
    }
}

fn read_optional(entries: &Vec<(&str, &Tree)>, key: &str) -> (r: Option<Option<String>>)
    ensures
        r is Some == optional_at(fields_view(entries@), key@) is Some,
        r is Some ==> text_of(r->0) == optional_at(fields_view(entries@), key@)->0,
{
    match field(entries, key) {
        None => Some(None),
        Some(Tree::Text(s)) => Some(Some(s.clone())),
        _ => None,
    }
}

fn read_texts(entries: &Vec<(&str, &Tree)>, key: &str) -> (r: Option<Vec<String>>)
    ensures
        r is Some == texts_at(fields_view(entries@), key@) is Some,
        r is Some ==> texts(r->0@) == texts_at(fields_view(entries@), key@)->0,
{
    match field(entries, key) {
        None => {
            let none: Vec<String> = Vec::new();
            assert(texts(none@) == Seq::<Seq<char>>::empty());
            Some(none)
        },
        Some(Tree::List(items)) => {
            proof {
                list_view(*items);
            }
            let ghost all = items_view(items@);
            let mut out: Vec<String> = Vec::new();
            let mut i: usize = 0;
            while i < items.len()
                invariant
                    i <= items@.len(),
                    all == items_view(items@),
                    texts_at(fields_view(entries@), key@) == all_texts(all),
                    out@.len() == i,
                    forall|k: int|
                        0 <= k < i ==> (#[trigger] all[k]) is Text && out@[k]@ == all[k]->Text_0,
                decreases items@.len() - i,
            {
                assert(all[i as int] == items@[i as int]@);
                match &items[i] {
                    Tree::Text(s) => {
                        out.push(s.clone());
                    },
                    _ => {
                        assert(!(all[i as int] is Text));
                        return None;
                    },
                }
                i += 1;
            }
            assert(texts(out@) == all_texts(all)->0);
            Some(out)
        },
        _ => None,
    }
}

pub open spec fn category_keys() -> Seq<Seq<char>> {
    seq!["slug"@, "title"@, "post"@, "reply"@]
}

/// A category, as a table describes it.
pub open spec fn category_of(tree: TreeView) -> Option<CategoryView> {
    match fields_of(tree, category_keys()) {
        Some(t) => {
            let slug = text_at(t, "slug"@);
            let title = text_at(t, "title"@);
            let post = texts_at(t, "post"@);
            let reply = texts_at(t, "reply"@);
            if slug is Some && title is Some && post is Some
                && reply is Some {
                Some(
                    CategoryView { slug: slug->0, title: title->0, post: post->0, reply: reply->0 },
                )
            } else {
                None
            }
        },
        None => None,
    }
}

fn read_category(tree: &Tree) -> (r: Option<Category>)
    ensures
        r is Some == category_of(tree@) is Some,
        r is Some ==> r->0@ == category_of(tree@)->0,
{
    let keys = ["slug", "title", "post", "reply"];
    assert(Seq::new(keys@.len(), |i: int| keys@[i]@) == category_keys());
    let t = match fields(tree, &keys) {
        Some(t) => t,
        None => {
            return None;
        },
    };
    let slug = read_text(&t, "slug");
    let title = read_text(&t, "title");
    let post = read_texts(&t, "post");
    let reply = read_texts(&t, "reply");
    match (slug, title, post, reply) {
        (Some(slug), Some(title), Some(post), Some(reply)) => Some(
            Category { slug, title, post, reply },
        ),
        _ => None,
    }
}

pub open spec fn categories_of(items: Seq<TreeView>) -> Option<Seq<CategoryView>> {
    if forall|i: int| 0 <= i < items.len() ==> category_of(#[trigger] items[i]) is Some {
        Some(Seq::new(items.len(), |i: int| category_of(items[i])->0))
    } else {
        None
    }
}

/// A list of categories that may be left out.
pub open spec fn categories_at(entries: Seq<(Seq<char>, TreeView)>) -> Option<Seq<CategoryView>> {
    match entry(entries, "category"@) {
        None => Some(Seq::empty()),
        Some(TreeView::List(items)) => categories_of(items),
        _ => None,
    }
}

fn read_categories(entries: &Vec<(&str, &Tree)>) -> (r: Option<Vec<Category>>)
    ensures
        r is Some == categories_at(fields_view(entries@)) is Some,
        r is Some ==> categories_view(r->0@) == categories_at(fields_view(entries@))->0,
{
    match field(entries, "category") {
        None => {
            let none: Vec<Category> = Vec::new();
            assert(categories_view(none@) == Seq::<CategoryView>::empty());
            Some(none)
        },
        Some(Tree::List(items)) => {
            proof {
                list_view(*items);
            }
            let ghost all = items_view(items@);
            let mut out: Vec<Category> = Vec::new();
            let mut i: usize = 0;
            while i < items.len()
                invariant
                    i <= items@.len(),
                    all == items_view(items@),
                    categories_at(fields_view(entries@)) == categories_of(all),
                    out@.len() == i,
                    forall|k: int|
                        0 <= k < i ==> category_of(#[trigger] all[k]) is Some && out@[k]@
                            == category_of(all[k])->0,
                decreases items@.len() - i,
            {
                assert(all[i as int] == items@[i as int]@);
                match read_category(&items[i]) {
                    Some(c) => {
                        out.push(c);
                    },
                    None => {
                        assert(category_of(all[i as int]) is None);
                        return None;
                    },
                }
                i += 1;
            }
            assert(categories_view(out@) == categories_of(all)->0);
            Some(out)
        },
        _ => None,
    }
}

/// How a space shows its topics, by the word for it.
pub open spec fn view_of(word: Seq<char>) -> Option<View> {
    if word == "timeline"@ {
        Some(View::Timeline)
    } else if word == "topics"@ {
        Some(View::Topics)
    } else {
        None
    }
}

/// Is this what may stand behind a word that needs nothing behind it?
pub open spec fn nothing_more(tree: TreeView) -> bool {
    match tree {
        TreeView::List(items) => items.len() == 0,
        TreeView::Table(t) => t.len() == 0,
        _ => false,
    }
}

/// How a space shows its topics: the word for it, or a table with nothing but
/// an empty list or an empty table under the word.
pub open spec fn view_in(tree: TreeView) -> Option<View> {
    match tree {
        TreeView::Text(word) => view_of(word),
        TreeView::Table(t) => if t.len() == 1 && nothing_more(t[0].1) {
            view_of(t[0].0)
        } else {
            None
        },
        _ => None,
    }
}

pub open spec fn view_at(entries: Seq<(Seq<char>, TreeView)>) -> Option<View> {
    match entry(entries, "view"@) {
        Some(tree) => view_in(tree),
        None => None,
    }
}

fn view_called(word: &str) -> (r: Option<View>)
    ensures
        r == view_of(word@),
{
    if same(word, "timeline") {
        Some(View::Timeline)
    } else if same(word, "topics") {
        Some(View::Topics)
    } else {
        None
    }
}

fn is_nothing_more(tree: &Tree) -> (r: bool)
    ensures
        r == nothing_more(tree@),
{
    match tree {
        Tree::List(items) => {
            proof {
                list_view(*items);
            }
            items.len() == 0
        },
        Tree::Table(t) => {
            proof {
                table_view(*t);
            }
            t.len() == 0
        },
        _ => false,
    }
}

fn read_view(entries: &Vec<(&str, &Tree)>) -> (r: Option<View>)
    ensures
        r == view_at(fields_view(entries@)),
{
    match field(entries, "view") {
        Some(tree) => view_of_tree(tree),
        None => None,
    }
}

/// The view a value names, if it names one.
pub fn view_of_tree(tree: &Tree) -> (r: Option<View>)
    ensures
        r == view_in(tree@),
{
    match tree {
        Tree::Text(word) => view_called(word),
        Tree::Table(t) => {
            proof {
                table_view(*t);
            }
            if t.len() == 1 && is_nothing_more(&t[0].1) {
                view_called(&t[0].0)
            } else {
                None
            }
        },
        _ => None,
    }
}

/// A size limit: a number that is not negative.
pub open spec fn limit_in(tree: TreeView) -> Option<u64> {
    match tree {
        TreeView::Wide(n) => if 0 <= n <= u64::MAX {
            Some(n as u64)
        } else {
            None
        },
        _ => None,
    }
}

/// The size limit, or the default.
pub open spec fn limit_at(entries: Seq<(Seq<char>, TreeView)>) -> Option<u64> {
    match entry(entries, "attachment_max_bytes"@) {
        None => Some(8388608),
        Some(tree) => limit_in(tree),
    }
}

/// The limit a value gives, if it is one.
pub fn limit_of(tree: &Tree) -> (r: Option<u64>)
    ensures
        r == limit_in(tree@),
{
    match tree {
        Tree::Wide(n) => if *n >= 0 && *n <= u64::MAX as i128 {
            Some(*n as u64)
        } else {
            None
        },
        _ => None,
    }
}

fn read_limit(entries: &Vec<(&str, &Tree)>) -> (r: Option<u64>)
    ensures
        r == limit_at(fields_view(entries@)),
{
    match field(entries, "attachment_max_bytes") {
        None => Some(default_attachment_bytes()),
        Some(tree) => limit_of(tree),
    }
}

pub open spec fn space_keys() -> Seq<Seq<char>> {
    seq![
        "host"@,
        "title"@,
        "view"@,
        "read"@,
        "category"@,
        "articles"@,
        "attachment_max_bytes"@,
        "title_key"@,
        "home"@,
    ]
}

/// A space, as a table describes it.
pub open spec fn space_of(tree: TreeView) -> Option<SpaceView> {
    match fields_of(tree, space_keys()) {
        Some(t) => {
            let host = text_at(t, "host"@);
            let title = text_at(t, "title"@);
            let view = view_at(t);
            let read = texts_at(t, "read"@);
            let categories = categories_at(t);
            let articles = optional_at(t, "articles"@);
            let limit = limit_at(t);
            let title_key = optional_at(t, "title_key"@);
            let home = optional_at(t, "home"@);
            if host is Some && title is Some && view is Some && read is Some && categories is Some
                && articles is Some && limit is Some && title_key is Some && home is Some {
                Some(
                    SpaceView {
                        host: host->0,
                        title: title->0,
                        view: view->0,
                        read: read->0,
                        categories: categories->0,
                        articles: articles->0,
                        attachment_max_bytes: limit->0,
                        title_key: match title_key->0 {
                            Some(key) => key,
                            None => "title"@,
                        },
                        home: home->0,
                    },
                )
            } else {
                None
            }
        },
        None => None,
    }
}

fn read_space(tree: &Tree) -> (r: Option<Space>)
    ensures
        r is Some == space_of(tree@) is Some,
        r is Some ==> r->0@ == space_of(tree@)->0,
{
    let keys = [
        "host",
        "title",
        "view",
        "read",
        "category",
        "articles",
        "attachment_max_bytes",
        "title_key",
        "home",
    ];
    assert(Seq::new(keys@.len(), |i: int| keys@[i]@) == space_keys());
    let t = match fields(tree, &keys) {
        Some(t) => t,
        None => {
            return None;
        },
    };
    let host = read_text(&t, "host");
    let title = read_text(&t, "title");
    let view = read_view(&t);
    let read = read_texts(&t, "read");
    let categories = read_categories(&t);
    let articles = read_optional(&t, "articles");
    let limit = read_limit(&t);
    let title_key = read_optional(&t, "title_key");
    let home = read_optional(&t, "home");
    match (host, title, view, read, categories, articles, limit, title_key, home) {
        (
            Some(host),
            Some(title),
            Some(view),
            Some(read),
            Some(categories),
            Some(articles),
            Some(attachment_max_bytes),
            Some(key),
            Some(home),
        ) => {
            let title_key = match key {
                Some(key) => key,
                None => default_title_key(),
            };
            Some(
                Space {
                    host,
                    title,
                    view,
                    read,
                    categories,
                    articles,
                    attachment_max_bytes,
                    title_key,
                    home,
                },
            )
        },
        _ => None,
    }
}

pub open spec fn spaces_of(items: Seq<TreeView>) -> Option<Seq<SpaceView>> {
    if forall|i: int| 0 <= i < items.len() ==> space_of(#[trigger] items[i]) is Some {
        Some(Seq::new(items.len(), |i: int| space_of(items[i])->0))
    } else {
        None
    }
}

pub open spec fn spaces_at(entries: Seq<(Seq<char>, TreeView)>) -> Option<Seq<SpaceView>> {
    match entry(entries, "space"@) {
        None => Some(Seq::empty()),
        Some(TreeView::List(items)) => spaces_of(items),
        _ => None,
    }
}

fn read_spaces(entries: &Vec<(&str, &Tree)>) -> (r: Option<Vec<Space>>)
    ensures
        r is Some == spaces_at(fields_view(entries@)) is Some,
        r is Some ==> spaces_view(r->0@) == spaces_at(fields_view(entries@))->0,
{
    match field(entries, "space") {
        None => {
            let none: Vec<Space> = Vec::new();
            assert(spaces_view(none@) == Seq::<SpaceView>::empty());
            Some(none)
        },
        Some(Tree::List(items)) => {
            proof {
                list_view(*items);
            }
            let ghost all = items_view(items@);
            let mut out: Vec<Space> = Vec::new();
            let mut i: usize = 0;
            while i < items.len()
                invariant
                    i <= items@.len(),
                    all == items_view(items@),
                    spaces_at(fields_view(entries@)) == spaces_of(all),
                    out@.len() == i,
                    forall|k: int|
                        0 <= k < i ==> space_of(#[trigger] all[k]) is Some && out@[k]@ == space_of(
                            all[k],
                        )->0,
                decreases items@.len() - i,
            {
                assert(all[i as int] == items@[i as int]@);
                match read_space(&items[i]) {
                    Some(c) => {
                        out.push(c);
                    },
                    None => {
                        assert(space_of(all[i as int]) is None);
                        return None;
                    },
                }
                i += 1;
            }
            assert(spaces_view(out@) == spaces_of(all)->0);
            Some(out)
        },
        _ => None,
    }
}

pub open spec fn events_keys() -> Seq<Seq<char>> {
    seq!["space"@, "link_hosts"@]
}

pub open spec fn events_of(tree: TreeView) -> Option<EventsView> {
    match fields_of(tree, events_keys()) {
        Some(t) => {
            let space = text_at(t, "space"@);
            let hosts = texts_at(t, "link_hosts"@);
            if space is Some && hosts is Some {
                Some(EventsView { space: space->0, link_hosts: hosts->0 })
            } else {
                None
            }
        },
        None => None,
    }
}

fn read_events(tree: &Tree) -> (r: Option<Events>)
    ensures
        r is Some == events_of(tree@) is Some,
        r is Some ==> r->0@ == events_of(tree@)->0,
{
    let keys = ["space", "link_hosts"];
    assert(Seq::new(keys@.len(), |i: int| keys@[i]@) == events_keys());
    let t = match fields(tree, &keys) {
        Some(t) => t,
        None => {
            return None;
        },
    };
    match (read_text(&t, "space"), read_texts(&t, "link_hosts")) {
        (Some(space), Some(link_hosts)) => Some(Events { space, link_hosts }),
        _ => None,
    }
}

pub open spec fn config_keys() -> Seq<Seq<char>> {
    seq!["timezone"@, "space"@, "events"@]
}

/// A whole configuration, as a table describes it, before anything in it has
/// been judged. Unknown keys are an error, so that a typo is loud.
pub open spec fn config_of(tree: TreeView) -> Option<ConfigView> {
    match fields_of(tree, config_keys()) {
        Some(t) => {
            let zone = optional_at(t, "timezone"@);
            let spaces = spaces_at(t);
            let events = entry(t, "events"@);
            if zone is Some && spaces is Some && (events is Some
                ==> events_of(events->0) is Some) {
                Some(
                    ConfigView {
                        timezone: zone->0,
                        spaces: spaces->0,
                        events: match events {
                            Some(e) => events_of(e),
                            None => None,
                        },
                    },
                )
            } else {
                None
            }
        },
        None => None,
    }
}

/// What the tree describes, if it describes a configuration.
pub fn read_config(tree: &Tree) -> (r: Option<Config>)
    ensures
        r is Some == config_of(tree@) is Some,
        r is Some ==> r->0@ == config_of(tree@)->0,
{
    let keys = ["timezone", "space", "events"];
    assert(Seq::new(keys@.len(), |i: int| keys@[i]@) == config_keys());
    let t = match fields(tree, &keys) {
        Some(t) => t,
        None => {
            return None;
        },
    };
    let events = match field(&t, "events") {
        None => None,
        Some(e) => match read_events(e) {
            Some(e) => Some(e),
            None => {
                return None;
            },
        },
    };
    match (read_optional(&t, "timezone"), read_spaces(&t)) {
        (Some(timezone), Some(spaces)) => Some(Config { timezone, spaces, events }),
        _ => None,
    }
}

/// The first thing wrong with the categories from `k` on.
pub open spec fn category_fault(host: Seq<char>, cats: Seq<CategoryView>, k: int) -> Option<Fault>
    decreases cats.len() - k,
{
    if k >= cats.len() || k < 0 {
        None
    } else if !usable_slug(cats[k].slug) {
        Some(Fault::InvalidSlug { space: host, slug: cats[k].slug })
    } else if exists|j: int| 0 <= j < k && (#[trigger] cats[j]).slug == cats[k].slug {
        Some(Fault::DuplicateCategory { space: host, slug: cats[k].slug })
    } else {
        category_fault(host, cats, k + 1)
    }
}

/// What is wrong with one space, the ones before it being known.
pub open spec fn space_fault(spaces: Seq<SpaceView>, i: int) -> Option<Fault> {
    let s = spaces[i];
    if exists|j: int| 0 <= j < i && (#[trigger] spaces[j]).host == s.host {
        Some(Fault::DuplicateHost(s.host))
    } else if s.categories.len() == 0 {
        Some(Fault::NoCategories(s.host))
    } else if s.read.len() == 0 {
        Some(Fault::NobodyCanRead(s.host))
    } else {
        category_fault(s.host, s.categories, 0)
    }
}

/// The first thing wrong with the spaces from `i` on.
pub open spec fn first_fault(spaces: Seq<SpaceView>, i: int) -> Option<Fault>
    decreases spaces.len() - i,
{
    if i >= spaces.len() || i < 0 {
        None
    } else {
        match space_fault(spaces, i) {
            Some(fault) => Some(fault),
            None => first_fault(spaces, i + 1),
        }
    }
}

/// The space under its normalised host.
pub open spec fn space_normalised(space: SpaceView) -> SpaceView {
    SpaceView { host: normalised(space.host), ..space }
}

pub open spec fn config_normalised(c: ConfigView) -> ConfigView {
    ConfigView {
        spaces: Seq::new(c.spaces.len(), |i: int| space_normalised(c.spaces[i])),
        ..c
    }
}

/// What becomes of a configuration: the first fault in it, or itself with the
/// hosts normalised. Whether the zone it names exists is the machine's to say.
pub open spec fn judged(c: ConfigView, zone_known: bool) -> Result<ConfigView, Fault> {
    if c.timezone is Some && !zone_known {
        Err(Fault::UnknownTimeZone(c.timezone->0))
    } else {
        let n = config_normalised(c);
        match first_fault(n.spaces, 0) {
            Some(fault) => Err(fault),
            None => Ok(n),
        }
    }
}

/// What a result says, whatever it is made of.
pub open spec fn outcome(r: Result<Config, ConfigError>) -> Result<ConfigView, Fault> {
    match r {
        Ok(c) => Ok(c@),
        Err(e) => Err(e@),
    }
}

fn check_categories(host: &String, cats: &Vec<Category>) -> (r: Option<ConfigError>)
    ensures
        r is Some == category_fault(host@, categories_view(cats@), 0) is Some,
        r is Some ==> r->0@ == category_fault(host@, categories_view(cats@), 0)->0,
{
    let ghost all = categories_view(cats@);
    let mut k: usize = 0;
    while k < cats.len()
        invariant
            k <= cats@.len(),
            all == categories_view(cats@),
            category_fault(host@, all, 0) == category_fault(host@, all, k as int),
        decreases cats@.len() - k,
    {
        assert(all[k as int] == cats@[k as int]@);
        if !slug_is_usable(&cats[k].slug) {
            return Some(
                ConfigError::InvalidSlug { space: host.clone(), slug: cats[k].slug.clone() },
            );
        }
        let mut j: usize = 0;
        while j < k
            invariant
                j <= k < cats@.len(),
                all == categories_view(cats@),
                usable_slug(all[k as int].slug),
                category_fault(host@, all, 0) == category_fault(host@, all, k as int),
                forall|i: int| 0 <= i < j ==> (#[trigger] all[i]).slug != all[k as int].slug,
            decreases k - j,
        {
            if same(&cats[j].slug, &cats[k].slug) {
                assert(all[j as int].slug == all[k as int].slug);
                return Some(
                    ConfigError::DuplicateCategory {
                        space: host.clone(),
                        slug: cats[k].slug.clone(),
                    },
                );
            }
            j += 1;
        }
        k += 1;
    }
    None
}

impl Space {
    pub fn category(&self, slug: &str) -> (r: Option<&Category>)
        ensures
            r is Some == category_named(self@.categories, slug@) is Some,
            r is Some ==> r->0@ == category_named(self@.categories, slug@)->0,
    {
        let ghost all = categories_view(self.categories@);
        assert(all.skip(0) == all);
        let mut i: usize = 0;
        while i < self.categories.len()
            invariant
                i <= self.categories@.len(),
                all == categories_view(self.categories@),
                category_named(all, slug@) == category_named(all.skip(i as int), slug@),
            decreases self.categories@.len() - i,
        {
            assert(all.skip(i as int)[0] == all[i as int]);
            assert(all.skip(i as int).drop_first() == all.skip(i + 1));
            if same(&self.categories[i].slug, slug) {
                return Some(&self.categories[i]);
            }
            i += 1;
        }
        None
    }
}

/// A TOML value as it was read.
#[verifier::external_type_specification]
#[verifier::external_body]
pub struct ExTomlValue<'i>(DeValue<'i>);

/// What a TOML value holds.
pub uninterp spec fn toml_contents(value: DeValue) -> TreeView;

/// What a TOML document holds, or what the parser says of a text that is none.
pub uninterp spec fn toml_parsed(text: Seq<char>) -> Result<TreeView, Seq<char>>;

/// `toml::de::DeTable::parse`: the document's table, or the parser's complaint.
/// Which of them, what the table holds and what the complaint says are a
/// function of the text alone.
#[verifier::external_body]
fn toml_value(text: &str) -> (r: Result<DeValue<'_>, String>)
    ensures
        match r {
            Ok(value) => toml_parsed(text@) == Ok::<_, Seq<char>>(toml_contents(value)),
            Err(why) => toml_parsed(text@) == Err::<TreeView, _>(why@),
        },
{
    toml::de::DeTable::parse(text)
        .map(|table| DeValue::Table(table.into_inner()))
        .map_err(|e| e.to_string())
}

/// A `toml::de::DeValue` taken apart variant by variant, lists and tables entry
/// by entry. Floats and dates keep the text they display as; an integer of more
/// than 128 bits comes as nothing.
#[verifier::external_body]
fn toml_tree(value: DeValue<'_>) -> (r: Tree)
    ensures
        r@ == toml_contents(value),
{
    match value {
        DeValue::String(s) => Tree::Text(s.into()),
        DeValue::Integer(n) => i128::from_str_radix(n.as_str(), n.radix()).map_or(
            Tree::Null,
            Tree::Wide,
        ),
        DeValue::Float(f) => Tree::Other(f.to_string()),
        DeValue::Boolean(b) => Tree::Bool(b),
        DeValue::Datetime(d) => Tree::Other(d.to_string()),
        DeValue::Array(a) => Tree::List(a.into_iter().map(|v| toml_tree(v.into_inner())).collect()),
        DeValue::Table(t) => Tree::Table(
            t.into_iter().map(|(k, v)| (k.into_inner().into(), toml_tree(v.into_inner()))).collect(),
        ),
    }
}

/// The first category under this slug.
pub open spec fn category_named(cats: Seq<CategoryView>, slug: Seq<char>) -> Option<CategoryView>
    decreases cats.len(),
{
    if cats.len() == 0 {
        None
    } else if cats[0].slug == slug {
        Some(cats[0])
    } else {
        category_named(cats.drop_first(), slug)
    }
}

/// The first space under exactly this host.
pub open spec fn space_hosted(spaces: Seq<SpaceView>, host: Seq<char>) -> Option<SpaceView>
    decreases spaces.len(),
{
    if spaces.len() == 0 {
        None
    } else if spaces[0].host == host {
        Some(spaces[0])
    } else {
        space_hosted(spaces.drop_first(), host)
    }
}

/// What a configuration file says before it is judged, or why it says nothing:
/// it is no document, or something in it does not fit.
pub open spec fn config_in(text: Seq<char>) -> Result<ConfigView, Seq<char>> {
    match toml_parsed(text) {
        Ok(tree) => match config_of(tree) {
            Some(config) => Ok(config),
            None => Err(complaint(Part::Config, "configuration"@, tree)->0),
        },
        Err(why) => Err(why),
    }
}

impl Config {
    /// Reads a configuration and judges it.
    ///
    /// The zone is looked up here and not where the first page is rendered: a
    /// name with a typo in it must stop the program while somebody is still
    /// watching the logs. Whether the machine knows it is all that is left
    /// open; what is accepted names a zone that was found.
    pub fn parse(text: &str) -> (r: Result<Config, ConfigError>)
        ensures
            match config_in(text@) {
                Err(why) => outcome(r) == Err::<ConfigView, Fault>(Fault::Syntax(why)),
                Ok(c) => ({
                    ||| outcome(r) == judged(c, true)
                    ||| c.timezone is Some && outcome(r) == judged(c, false)
                }),
            },
            r is Ok && r->Ok_0@.timezone is Some ==> exists|zone: jiff::tz::TimeZone|
                goes_by(#[trigger] zone_name(zone), r->Ok_0@.timezone->0),
    {
        let tree = match toml_value(text) {
            Ok(value) => toml_tree(value),
            Err(message) => {
                return Err(ConfigError::Syntax(message));
            },
        };
        let config = match read_config(&tree) {
            Some(config) => config,
            None => {
                proof {
                    what_does_not_fit_is_named("configuration"@, tree@);
                }
                let why = match complain(Part::Config, "configuration", &tree) {
                    Some(why) => why,
                    None => String::new(),
                };
                return Err(ConfigError::Syntax(why));
            },
        };
        let zone_known = match &config.timezone {
            Some(name) => match resolve(Some(name.as_str())) {
                Ok(zone) => {
                    assert(goes_by(zone_name(zone), name@));
                    true
                },
                Err(_) => false,
            },
            None => true,
        };
        config.checked(zone_known)
    }

    /// Judges a configuration that has been read. Whether a zone is called by
    /// the name in it has been found out by the caller.
    pub fn checked(self, zone_known: bool) -> (r: Result<Config, ConfigError>)
        ensures
            outcome(r) == judged(self@, zone_known),
    {
        let mut c = self;
        if !zone_known {
            match &c.timezone {
                Some(name) => {
                    return Err(ConfigError::UnknownTimeZone(name.clone()));
                },
                None => {},
            }
        }
        let ghost given = spaces_view(c.spaces@);
        let mut i: usize = 0;
        while i < c.spaces.len()
            invariant
                i <= c.spaces@.len(),
                c.spaces@.len() == given.len(),
                c.timezone == self.timezone,
                c.events == self.events,
                forall|k: int|
                    0 <= k < given.len() ==> (#[trigger] c.spaces@[k])@ == if k < i {
                        space_normalised(given[k])
                    } else {
                        given[k]
                    },
            decreases c.spaces@.len() - i,
        {
            let host = normalise(&c.spaces[i].host);
            assert(c.spaces@[i as int]@ == given[i as int]);
            c.spaces[i].host = host;
            i += 1;
        }
        assert(c@.spaces == config_normalised(self@).spaces);
        match check_spaces(&c.spaces) {
            Some(e) => Err(e),
            None => Ok(c),
        }
    }

    pub fn space_for_host(&self, host: &str) -> (r: Option<&Space>)
        ensures
            r is Some == space_hosted(self@.spaces, normalised(host@)) is Some,
            r is Some ==> r->0@ == space_hosted(self@.spaces, normalised(host@))->0,
    {
        let h = normalise(host);
        let ghost all = spaces_view(self.spaces@);
        assert(all.skip(0) == all);
        let mut i: usize = 0;
        while i < self.spaces.len()
            invariant
                i <= self.spaces@.len(),
                all == spaces_view(self.spaces@),
                space_hosted(all, h@) == space_hosted(all.skip(i as int), h@),
                h@ == normalised(host@),
            decreases self.spaces@.len() - i,
        {
            assert(all.skip(i as int)[0] == all[i as int]);
            assert(all.skip(i as int).drop_first() == all.skip(i + 1));
            if same(&self.spaces[i].host, &h) {
                return Some(&self.spaces[i]);
            }
            i += 1;
        }
        None
    }
}

fn check_spaces(spaces: &Vec<Space>) -> (r: Option<ConfigError>)
    ensures
        r is Some == first_fault(spaces_view(spaces@), 0) is Some,
        r is Some ==> r->0@ == first_fault(spaces_view(spaces@), 0)->0,
{
    let ghost all = spaces_view(spaces@);
    let mut i: usize = 0;
    while i < spaces.len()
        invariant
            i <= spaces@.len(),
            all == spaces_view(spaces@),
            first_fault(all, 0) == first_fault(all, i as int),
        decreases spaces@.len() - i,
    {
        assert(all[i as int] == spaces@[i as int]@);
        let s = &spaces[i];
        let mut j: usize = 0;
        while j < i
            invariant
                j <= i < spaces@.len(),
                *s == spaces@[i as int],
                all == spaces_view(spaces@),
                first_fault(all, 0) == first_fault(all, i as int),
                forall|k: int| 0 <= k < j ==> (#[trigger] all[k]).host != all[i as int].host,
            decreases i - j,
        {
            if same(&spaces[j].host, &s.host) {
                assert(all[j as int].host == all[i as int].host);
                return Some(ConfigError::DuplicateHost(s.host.clone()));
            }
            j += 1;
        }
        if s.categories.len() == 0 {
            return Some(ConfigError::NoCategories(s.host.clone()));
        }
        if s.read.len() == 0 {
            return Some(ConfigError::NobodyCanRead(s.host.clone()));
        }
        match check_categories(&s.host, &s.categories) {
            Some(e) => {
                return Some(e);
            },
            None => {},
        }
        i += 1;
    }
    None
}

/// A configuration that can be trusted: every host is normalised and stands
/// once, every space has readers and categories, every slug is usable and
/// stands once in its space.
pub open spec fn trusted(c: ConfigView) -> bool {
    &&& forall|i: int|
        0 <= i < c.spaces.len() ==> {
            let s = #[trigger] c.spaces[i];
            &&& normalised(s.host) == s.host
            &&& s.read.len() > 0
            &&& s.categories.len() > 0
            &&& forall|k: int|
                0 <= k < s.categories.len() ==> usable_slug((#[trigger] s.categories[k]).slug)
            &&& forall|j: int, k: int|
                0 <= j < k < s.categories.len() ==> (#[trigger] s.categories[j]).slug != (
                #[trigger] s.categories[k]).slug
        }
    &&& forall|i: int, j: int|
        0 <= i < j < c.spaces.len() ==> (#[trigger] c.spaces[i]).host != (
        #[trigger] c.spaces[j]).host
}

proof fn categories_without_fault(host: Seq<char>, cats: Seq<CategoryView>, from: int)
    requires
        0 <= from,
        category_fault(host, cats, from) is None,
    ensures
        forall|k: int| from <= k < cats.len() ==> usable_slug((#[trigger] cats[k]).slug),
        forall|j: int, k: int|
            0 <= j < k < cats.len() && from <= k ==> (#[trigger] cats[j]).slug != (
            #[trigger] cats[k]).slug,
    decreases cats.len() - from,
{
    if from < cats.len() {
        categories_without_fault(host, cats, from + 1);
    }
}

proof fn spaces_without_fault(spaces: Seq<SpaceView>, from: int)
    requires
        0 <= from,
        first_fault(spaces, from) is None,
    ensures
        forall|i: int| from <= i < spaces.len() ==> (#[trigger] space_fault(spaces, i)) is None,
    decreases spaces.len() - from,
{
    if from < spaces.len() {
        spaces_without_fault(spaces, from + 1);
    }
}

/// A configuration that is accepted can be trusted.
pub proof fn an_accepted_configuration_is_trusted(c: ConfigView, zone_known: bool)
    requires
        judged(c, zone_known) is Ok,
    ensures
        trusted(judged(c, zone_known)->Ok_0),
{
    let n = judged(c, zone_known)->Ok_0;
    spaces_without_fault(n.spaces, 0);
    assert forall|i: int| 0 <= i < n.spaces.len() implies {
        let s = #[trigger] n.spaces[i];
        &&& normalised(s.host) == s.host
        &&& s.read.len() > 0
        &&& s.categories.len() > 0
        &&& forall|k: int|
            0 <= k < s.categories.len() ==> usable_slug((#[trigger] s.categories[k]).slug)
        &&& forall|j: int, k: int|
            0 <= j < k < s.categories.len() ==> (#[trigger] s.categories[j]).slug != (
            #[trigger] s.categories[k]).slug
    } by {
        let s = n.spaces[i];
        assert(space_fault(n.spaces, i) is None);
        categories_without_fault(s.host, s.categories, 0);
        normalising_twice(c.spaces[i].host);
    }
    assert forall|i: int, j: int| 0 <= i < j < n.spaces.len() implies (
    #[trigger] n.spaces[i]).host != (#[trigger] n.spaces[j]).host by {
        assert(space_fault(n.spaces, j) is None);
    }
}

/// Judging twice changes nothing: an accepted configuration is accepted as it
/// stands.
pub proof fn judging_is_idempotent(c: ConfigView, zone_known: bool)
    requires
        judged(c, zone_known) is Ok,
    ensures
        judged(judged(c, zone_known)->Ok_0, zone_known) == judged(c, zone_known),
{
    let n = judged(c, zone_known)->Ok_0;
    assert forall|i: int| 0 <= i < n.spaces.len() implies space_normalised(#[trigger] n.spaces[i])
        == n.spaces[i] by {
        normalising_twice(c.spaces[i].host);
    }
    assert(config_normalised(n).spaces =~= n.spaces);
}

/// Normalising twice is normalising once.
pub proof fn normalising_twice(host: Seq<char>)
    ensures
        normalised(normalised(host)) == normalised(host),
{
    let n = normalised(host);
    let front = host.take(first_at(host, ':'));
    first_at_is_first(host, ':');
    assert forall|i: int| 0 <= i < n.len() implies n[i] != ':' by {
        assert(front[i] == host[i]);
        if 'A' <= front[i] <= 'Z' {
            assert('a' <= lower_char(front[i]) <= 'z');
        }
    }
    first_at_found(n, ':', n.len() as int);
    assert(n.take(n.len() as int) == n);
    ascii_lower_idempotent(front);
}

/// The port means nothing for choosing a space: whatever follows the first
/// colon is left out.
pub proof fn the_port_does_not_matter(host: Seq<char>, port: Seq<char>)
    requires
        !host.contains(':'),
    ensures
        normalised(host + seq![':'] + port) == normalised(host),
{
    let full = host + seq![':'] + port;
    first_at_found(full, ':', host.len() as int);
    first_at_found(host, ':', host.len() as int);
    assert(full.take(host.len() as int) == host);
    assert(host.take(host.len() as int) == host);
}

/// Nor does the case: two hosts that differ only in capitals are the same.
pub proof fn the_case_does_not_matter(a: Seq<char>, b: Seq<char>)
    requires
        ascii_lower(a) == ascii_lower(b),
    ensures
        normalised(a) == normalised(b),
{
    first_at_is_first(a, ':');
    first_at_is_first(b, ':');
    assert(a.len() == b.len()) by {
        assert(ascii_lower(a).len() == a.len() && ascii_lower(b).len() == b.len());
    }
    assert forall|i: int| 0 <= i < a.len() implies (a[i] == ':') == (b[i] == ':') by {
        assert(ascii_lower(a)[i] == lower_char(a[i]));
        assert(ascii_lower(b)[i] == lower_char(b[i]));
        if 'A' <= a[i] <= 'Z' {
            assert('a' <= lower_char(a[i]) <= 'z');
        }
        if 'A' <= b[i] <= 'Z' {
            assert('a' <= lower_char(b[i]) <= 'z');
        }
    }
    let at = first_at(a, ':');
    first_at_found(b, ':', at);
    assert(ascii_lower(a.take(at)) =~= ascii_lower(a).take(at));
    assert(ascii_lower(b.take(at)) =~= ascii_lower(b).take(at));
}

} // verus!
