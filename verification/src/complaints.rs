//! What is wrong with a configuration that is not of the shape it should be:
//! the first thing that does not fit, named by its key. A typo is loud, and it
//! says where it is.
use crate::config::{
    categories_of, category_keys, category_of, config_keys, config_of, entries_in, entries_of,
    events_keys, events_of, fields_view, limit_in, limit_of, only_keys, space_keys, space_of,
    spaces_of, view_in, view_of_tree,
};
use crate::text::{same, text_of};
use crate::tree::{entry, items_view, list_view, Tree, TreeView};
use vstd::prelude::*;
use vstd::string::*;

verus! {

/// The parts a configuration is made of.
#[derive(Debug, Clone, Copy, PartialEq, Eq, Structural)]
pub enum Part {
    Config,
    Space,
    Category,
    Events,
}

/// What may stand under a key.
#[derive(Debug, Clone, Copy, PartialEq, Eq, Structural)]
pub enum Kind {
    Text,
    Texts,
    View,
    Limit,
    Several(Part),
    One(Part),
}

pub open spec fn keys_of(part: Part) -> Seq<Seq<char>> {
    match part {
        Part::Config => config_keys(),
        Part::Space => space_keys(),
        Part::Category => category_keys(),
        Part::Events => events_keys(),
    }
}

/// The keys that cannot be left out.
pub open spec fn required_of(part: Part) -> Seq<Seq<char>> {
    match part {
        Part::Config => Seq::empty(),
        Part::Space => seq!["host"@, "title"@, "view"@],
        Part::Category => seq!["slug"@, "title"@],
        Part::Events => seq!["space"@],
    }
}

/// What may stand under this key, if it is one.
pub open spec fn kind_of(part: Part, key: Seq<char>) -> Option<Kind> {
    match part {
        Part::Config => if key == "timezone"@ {
            Some(Kind::Text)
        } else if key == "space"@ {
            Some(Kind::Several(Part::Space))
        } else if key == "events"@ {
            Some(Kind::One(Part::Events))
        } else {
            None
        },
        Part::Space => if key == "read"@ {
            Some(Kind::Texts)
        } else if key == "category"@ {
            Some(Kind::Several(Part::Category))
        } else if key == "view"@ {
            Some(Kind::View)
        } else if key == "attachment_max_bytes"@ {
            Some(Kind::Limit)
        } else if key == "host"@ || key == "title"@ || key == "articles"@ || key == "title_key"@
            || key == "home"@ {
            Some(Kind::Text)
        } else {
            None
        },
        Part::Category => if key == "post"@ || key == "reply"@ {
            Some(Kind::Texts)
        } else if key == "slug"@ || key == "title"@ {
            Some(Kind::Text)
        } else {
            None
        },
        Part::Events => if key == "link_hosts"@ {
            Some(Kind::Texts)
        } else if key == "space"@ {
            Some(Kind::Text)
        } else {
            None
        },
    }
}

/// How deep a part reaches.
pub open spec fn depth(part: Part) -> nat {
    match part {
        Part::Config => 2,
        Part::Space => 1,
        Part::Category => 0,
        Part::Events => 0,
    }
}

/// A key, set apart from the words around it.
pub open spec fn marked(key: Seq<char>) -> Seq<char> {
    "`"@ + key + "`"@
}

/// The keys, one after the other.
pub open spec fn marked_all(keys: Seq<Seq<char>>) -> Seq<char>
    decreases keys.len(),
{
    if keys.len() == 0 {
        Seq::empty()
    } else if keys.len() == 1 {
        marked(keys[0])
    } else {
        marked_all(keys.drop_last()) + ", "@ + marked(keys.last())
    }
}

/// What could have stood there.
pub open spec fn choices(keys: Seq<Seq<char>>) -> Seq<char> {
    if keys.len() == 2 {
        marked(keys[0]) + " or "@ + marked(keys[1])
    } else {
        "one of "@ + marked_all(keys)
    }
}

pub open spec fn unknown_field(key: Seq<char>, keys: Seq<Seq<char>>) -> Seq<char> {
    "unknown field "@ + marked(key) + ", expected "@ + choices(keys)
}

pub open spec fn missing_field(key: Seq<char>) -> Seq<char> {
    "missing field "@ + marked(key)
}

pub open spec fn wrong_kind(key: Seq<char>, kind: Seq<char>) -> Seq<char> {
    "invalid type for "@ + marked(key) + ", expected "@ + kind
}

/// The first thing that does not fit in a part: a field, in the order in which
/// they stand there, or else one that is missing. `key` is where the part is.
pub open spec fn complaint(part: Part, key: Seq<char>, tree: TreeView) -> Option<Seq<char>>
    decreases depth(part), 2int, 0nat,
{
    match entries_of(tree, keys_of(part)) {
        Some(entries) => match complaint_in(part, entries) {
            Some(why) => Some(why),
            None => missing_in(entries, required_of(part)),
        },
        None => Some(wrong_kind(key, "a table"@)),
    }
}

/// The first field that does not fit.
pub open spec fn complaint_in(part: Part, entries: Seq<(Seq<char>, TreeView)>) -> Option<Seq<char>>
    decreases depth(part), 1int, entries.len(),
{
    if entries.len() == 0 {
        None
    } else {
        match complaint_about(part, entries[0].0, entries[0].1) {
            Some(why) => Some(why),
            None => complaint_in(part, entries.drop_first()),
        }
    }
}

/// What is wrong with one field.
pub open spec fn complaint_about(part: Part, key: Seq<char>, tree: TreeView) -> Option<Seq<char>>
    decreases depth(part), 0int, 0nat,
{
    match kind_of(part, key) {
        None => Some(unknown_field(key, keys_of(part))),
        Some(Kind::Text) => if tree is Text {
            None
        } else {
            Some(wrong_kind(key, "a string"@))
        },
        Some(Kind::Texts) => if tree is List && forall|i: int|
            0 <= i < tree->List_0.len() ==> (#[trigger] tree->List_0[i]) is Text {
            None
        } else {
            Some(wrong_kind(key, "a list of strings"@))
        },
        Some(Kind::View) => if view_in(tree) is Some {
            None
        } else {
            Some(wrong_kind(key, "`timeline` or `topics`"@))
        },
        Some(Kind::Limit) => if limit_in(tree) is Some {
            None
        } else {
            Some(wrong_kind(key, "u64"@))
        },
        Some(Kind::Several(sub)) => match tree {
            TreeView::List(items) => complaint_among(sub, key, items),
            _ => Some(wrong_kind(key, "a list of tables"@)),
        },
        Some(Kind::One(sub)) => complaint(sub, key, tree),
    }
}

/// The first thing that does not fit in a list of parts.
pub open spec fn complaint_among(part: Part, key: Seq<char>, items: Seq<TreeView>) -> Option<
    Seq<char>,
>
    decreases depth(part), 3int, items.len(),
{
    if items.len() == 0 {
        None
    } else {
        match complaint(part, key, items[0]) {
            Some(why) => Some(why),
            None => complaint_among(part, key, items.drop_first()),
        }
    }
}

/// The first of these keys that has no field.
pub open spec fn missing_in(
    entries: Seq<(Seq<char>, TreeView)>,
    required: Seq<Seq<char>>,
) -> Option<Seq<char>>
    decreases required.len(),
{
    if required.len() == 0 {
        None
    } else if entry(entries, required[0]) is None {
        Some(missing_field(required[0]))
    } else {
        missing_in(entries, required.drop_first())
    }
}

proof fn every_field_fits(part: Part, entries: Seq<(Seq<char>, TreeView)>, i: int)
    requires
        complaint_in(part, entries) is None,
        0 <= i < entries.len(),
    ensures
        complaint_about(part, entries[i].0, entries[i].1) is None,
    decreases entries.len(),
{
    if i > 0 {
        every_field_fits(part, entries.drop_first(), i - 1);
    }
}

proof fn every_item_fits(part: Part, key: Seq<char>, items: Seq<TreeView>, i: int)
    requires
        complaint_among(part, key, items) is None,
        0 <= i < items.len(),
    ensures
        complaint(part, key, items[i]) is None,
    decreases items.len(),
{
    if i > 0 {
        every_item_fits(part, key, items.drop_first(), i - 1);
    }
}

proof fn an_entry_stands_there(entries: Seq<(Seq<char>, TreeView)>, key: Seq<char>) -> (i: int)
    requires
        entry(entries, key) is Some,
    ensures
        0 <= i < entries.len(),
        entries[i].0 == key,
        entries[i].1 == entry(entries, key)->0,
    decreases entries.len(),
{
    if entries[0].0 == key {
        0
    } else {
        an_entry_stands_there(entries.drop_first(), key) + 1
    }
}

proof fn what_stands_there_fits(
    part: Part,
    entries: Seq<(Seq<char>, TreeView)>,
    key: Seq<char>,
)
    requires
        complaint_in(part, entries) is None,
    ensures
        entry(entries, key) is Some ==> complaint_about(part, key, entry(entries, key)->0) is None,
{
    if entry(entries, key) is Some {
        let i = an_entry_stands_there(entries, key);
        every_field_fits(part, entries, i);
    }
}

proof fn nothing_is_missing(
    entries: Seq<(Seq<char>, TreeView)>,
    required: Seq<Seq<char>>,
    i: int,
)
    requires
        missing_in(entries, required) is None,
        0 <= i < required.len(),
    ensures
        entry(entries, required[i]) is Some,
    decreases required.len(),
{
    if i > 0 {
        nothing_is_missing(entries, required.drop_first(), i - 1);
    }
}

proof fn a_kind_is_for_a_key(part: Part, key: Seq<char>)
    requires
        kind_of(part, key) is Some,
    ensures
        keys_of(part).contains(key),
{
    let keys = keys_of(part);
    match part {
        Part::Config => {
            assert(keys[0] == "timezone"@ && keys[1] == "space"@ && keys[2] == "events"@);
        },
        Part::Space => {
            assert(keys[0] == "host"@ && keys[1] == "title"@ && keys[2] == "view"@);
            assert(keys[3] == "read"@ && keys[4] == "category"@ && keys[5] == "articles"@);
            assert(keys[6] == "attachment_max_bytes"@ && keys[7] == "title_key"@);
            assert(keys[8] == "home"@);
        },
        Part::Category => {
            assert(keys[0] == "slug"@ && keys[1] == "title"@ && keys[2] == "post"@);
            assert(keys[3] == "reply"@);
        },
        Part::Events => {
            assert(keys[0] == "space"@ && keys[1] == "link_hosts"@);
        },
    }
}

proof fn only_its_keys(part: Part, entries: Seq<(Seq<char>, TreeView)>)
    requires
        complaint_in(part, entries) is None,
    ensures
        only_keys(entries, keys_of(part)),
{
    assert forall|i: int| 0 <= i < entries.len() implies keys_of(part).contains(
        (#[trigger] entries[i]).0,
    ) by {
        every_field_fits(part, entries, i);
        a_kind_is_for_a_key(part, entries[i].0);
    }
}

/// The keys of a space are told apart.
proof fn space_kinds()
    ensures
        kind_of(Part::Space, "host"@) == Some(Kind::Text),
        kind_of(Part::Space, "title"@) == Some(Kind::Text),
        kind_of(Part::Space, "view"@) == Some(Kind::View),
        kind_of(Part::Space, "read"@) == Some(Kind::Texts),
        kind_of(Part::Space, "category"@) == Some(Kind::Several(Part::Category)),
        kind_of(Part::Space, "articles"@) == Some(Kind::Text),
        kind_of(Part::Space, "attachment_max_bytes"@) == Some(Kind::Limit),
        kind_of(Part::Space, "title_key"@) == Some(Kind::Text),
        kind_of(Part::Space, "home"@) == Some(Kind::Text),
{
    reveal_strlit("host");
    reveal_strlit("title");
    reveal_strlit("view");
    reveal_strlit("read");
    reveal_strlit("category");
    reveal_strlit("articles");
    reveal_strlit("attachment_max_bytes");
    reveal_strlit("title_key");
    reveal_strlit("home");
    assert("read"@[0] == 'r' && "view"@[0] == 'v' && "host"@[0] == 'h' && "home"@[0] == 'h');
    assert("category"@[0] == 'c' && "articles"@[0] == 'a');
    assert("host"@.len() == 4 && "view"@.len() == 4 && "read"@.len() == 4 && "home"@.len() == 4);
    assert("title"@.len() == 5 && "category"@.len() == 8 && "articles"@.len() == 8);
    assert("attachment_max_bytes"@.len() == 20 && "title_key"@.len() == 9);
}

proof fn category_kinds()
    ensures
        kind_of(Part::Category, "slug"@) == Some(Kind::Text),
        kind_of(Part::Category, "title"@) == Some(Kind::Text),
        kind_of(Part::Category, "post"@) == Some(Kind::Texts),
        kind_of(Part::Category, "reply"@) == Some(Kind::Texts),
{
    reveal_strlit("slug");
    reveal_strlit("title");
    reveal_strlit("post");
    reveal_strlit("reply");
    assert("slug"@[0] == 's' && "post"@[0] == 'p');
    assert("title"@[0] == 't' && "reply"@[0] == 'r');
}

proof fn events_kinds()
    ensures
        kind_of(Part::Events, "space"@) == Some(Kind::Text),
        kind_of(Part::Events, "link_hosts"@) == Some(Kind::Texts),
{
    reveal_strlit("space");
    reveal_strlit("link_hosts");
    assert("space"@.len() == 5 && "link_hosts"@.len() == 10);
}

proof fn config_kinds()
    ensures
        kind_of(Part::Config, "timezone"@) == Some(Kind::Text),
        kind_of(Part::Config, "space"@) == Some(Kind::Several(Part::Space)),
        kind_of(Part::Config, "events"@) == Some(Kind::One(Part::Events)),
{
    reveal_strlit("timezone");
    reveal_strlit("space");
    reveal_strlit("events");
    assert("timezone"@.len() == 8 && "space"@.len() == 5 && "events"@.len() == 6);
}

proof fn a_category_without_complaint_is_one(key: Seq<char>, tree: TreeView)
    requires
        complaint(Part::Category, key, tree) is None,
    ensures
        category_of(tree) is Some,
{
    let part = Part::Category;
    let entries = entries_of(tree, keys_of(part))->0;
    let required = required_of(part);
    only_its_keys(part, entries);
    category_kinds();
    nothing_is_missing(entries, required, 0);
    nothing_is_missing(entries, required, 1);
    what_stands_there_fits(part, entries, "slug"@);
    what_stands_there_fits(part, entries, "title"@);
    what_stands_there_fits(part, entries, "post"@);
    what_stands_there_fits(part, entries, "reply"@);
}

proof fn events_without_complaint_are_some(key: Seq<char>, tree: TreeView)
    requires
        complaint(Part::Events, key, tree) is None,
    ensures
        events_of(tree) is Some,
{
    let part = Part::Events;
    let entries = entries_of(tree, keys_of(part))->0;
    only_its_keys(part, entries);
    events_kinds();
    nothing_is_missing(entries, required_of(part), 0);
    what_stands_there_fits(part, entries, "space"@);
    what_stands_there_fits(part, entries, "link_hosts"@);
}

proof fn a_space_without_complaint_is_one(key: Seq<char>, tree: TreeView)
    requires
        complaint(Part::Space, key, tree) is None,
    ensures
        space_of(tree) is Some,
{
    let part = Part::Space;
    let entries = entries_of(tree, keys_of(part))->0;
    let required = required_of(part);
    only_its_keys(part, entries);
    space_kinds();
    nothing_is_missing(entries, required, 0);
    nothing_is_missing(entries, required, 1);
    nothing_is_missing(entries, required, 2);
    what_stands_there_fits(part, entries, "host"@);
    what_stands_there_fits(part, entries, "title"@);
    what_stands_there_fits(part, entries, "view"@);
    what_stands_there_fits(part, entries, "read"@);
    what_stands_there_fits(part, entries, "category"@);
    what_stands_there_fits(part, entries, "articles"@);
    what_stands_there_fits(part, entries, "attachment_max_bytes"@);
    what_stands_there_fits(part, entries, "title_key"@);
    what_stands_there_fits(part, entries, "home"@);
    match entry(entries, "category"@) {
        Some(TreeView::List(items)) => {
            assert forall|i: int| 0 <= i < items.len() implies category_of(
                #[trigger] items[i],
            ) is Some by {
                every_item_fits(Part::Category, "category"@, items, i);
                a_category_without_complaint_is_one("category"@, items[i]);
            }
            assert(categories_of(items) is Some);
        },
        _ => {},
    }
}

/// A file that is no configuration is complained about: what does not fit is
/// named.
pub proof fn what_does_not_fit_is_named(key: Seq<char>, tree: TreeView)
    ensures
        config_of(tree) is None ==> complaint(Part::Config, key, tree) is Some,
{
    if complaint(Part::Config, key, tree) is None {
        let part = Part::Config;
        let entries = entries_of(tree, keys_of(part))->0;
        only_its_keys(part, entries);
        config_kinds();
        what_stands_there_fits(part, entries, "timezone"@);
        what_stands_there_fits(part, entries, "space"@);
        what_stands_there_fits(part, entries, "events"@);
        match entry(entries, "space"@) {
            Some(TreeView::List(items)) => {
                assert forall|i: int| 0 <= i < items.len() implies space_of(
                    #[trigger] items[i],
                ) is Some by {
                    every_item_fits(Part::Space, "space"@, items, i);
                    a_space_without_complaint_is_one("space"@, items[i]);
                }
                assert(spaces_of(items) is Some);
            },
            _ => {},
        }
        match entry(entries, "events"@) {
            Some(events) => {
                events_without_complaint_are_some("events"@, events);
            },
            None => {},
        }
    }
}

fn keys(part: Part) -> (r: Vec<&'static str>)
    ensures
        Seq::new(r@.len(), |i: int| r@[i]@) == keys_of(part),
{
    let list: Vec<&'static str> = match part {
        Part::Config => vec!["timezone", "space", "events"],
        Part::Space => vec![
            "host",
            "title",
            "view",
            "read",
            "category",
            "articles",
            "attachment_max_bytes",
            "title_key",
            "home",
        ],
        Part::Category => vec!["slug", "title", "post", "reply"],
        Part::Events => vec!["space", "link_hosts"],
    };
    assert(Seq::new(list@.len(), |i: int| list@[i]@) =~= keys_of(part));
    list
}

fn required(part: Part) -> (r: Vec<&'static str>)
    ensures
        Seq::new(r@.len(), |i: int| r@[i]@) == required_of(part),
{
    let list: Vec<&'static str> = match part {
        Part::Config => Vec::new(),
        Part::Space => vec!["host", "title", "view"],
        Part::Category => vec!["slug", "title"],
        Part::Events => vec!["space"],
    };
    assert(Seq::new(list@.len(), |i: int| list@[i]@) =~= required_of(part));
    list
}

fn kind(part: Part, key: &str) -> (r: Option<Kind>)
    ensures
        r == kind_of(part, key@),
{
    match part {
        Part::Config => if same(key, "timezone") {
            Some(Kind::Text)
        } else if same(key, "space") {
            Some(Kind::Several(Part::Space))
        } else if same(key, "events") {
            Some(Kind::One(Part::Events))
        } else {
            None
        },
        Part::Space => if same(key, "read") {
            Some(Kind::Texts)
        } else if same(key, "category") {
            Some(Kind::Several(Part::Category))
        } else if same(key, "view") {
            Some(Kind::View)
        } else if same(key, "attachment_max_bytes") {
            Some(Kind::Limit)
        } else if same(key, "host") || same(key, "title") || same(key, "articles") || same(
            key,
            "title_key",
        ) || same(key, "home") {
            Some(Kind::Text)
        } else {
            None
        },
        Part::Category => if same(key, "post") || same(key, "reply") {
            Some(Kind::Texts)
        } else if same(key, "slug") || same(key, "title") {
            Some(Kind::Text)
        } else {
            None
        },
        Part::Events => if same(key, "link_hosts") {
            Some(Kind::Texts)
        } else if same(key, "space") {
            Some(Kind::Text)
        } else {
            None
        },
    }
}

fn mark(key: &str) -> (r: String)
    ensures
        r@ == marked(key@),
{
    "`".to_owned().concat(key).concat("`")
}

fn mark_all(list: &[&str]) -> (r: String)
    ensures
        r@ == marked_all(Seq::new(list@.len(), |i: int| list@[i]@)),
{
    let ghost all = Seq::new(list@.len(), |i: int| list@[i]@);
    if list.len() == 0 {
        return String::new();
    }
    let mut out = mark(list[0]);
    let mut i: usize = 1;
    assert(all.take(1)[0] == all[0]);
    while i < list.len()
        invariant
            1 <= i <= list@.len(),
            all == Seq::new(list@.len(), |i: int| list@[i]@),
            out@ == marked_all(all.take(i as int)),
        decreases list@.len() - i,
    {
        assert(all.take(i + 1).drop_last() == all.take(i as int));
        assert(all.take(i + 1).last() == list@[i as int]@);
        out = out.concat(", ").concat(&mark(list[i]));
        i += 1;
    }
    assert(all.take(i as int) == all);
    out
}

fn name_choices(list: &[&str]) -> (r: String)
    ensures
        r@ == choices(Seq::new(list@.len(), |i: int| list@[i]@)),
{
    if list.len() == 2 {
        mark(list[0]).concat(" or ").concat(&mark(list[1]))
    } else {
        "one of ".to_owned().concat(&mark_all(list))
    }
}

fn say_wrong_kind(key: &str, expected: &str) -> (r: String)
    ensures
        r@ == wrong_kind(key@, expected@),
{
    "invalid type for ".to_owned().concat(&mark(key)).concat(", expected ").concat(expected)
}

fn are_texts(tree: &Tree) -> (r: bool)
    ensures
        r == (tree@ is List && forall|i: int|
            0 <= i < tree@->List_0.len() ==> (#[trigger] tree@->List_0[i]) is Text),
{
    match tree {
        Tree::List(items) => {
            proof {
                list_view(*items);
            }
            let ghost all = items_view(items@);
            let mut i: usize = 0;
            while i < items.len()
                invariant
                    i <= items@.len(),
                    all == items_view(items@),
                    tree@ == TreeView::List(all),
                    forall|k: int| 0 <= k < i ==> (#[trigger] all[k]) is Text,
                decreases items@.len() - i,
            {
                assert(all[i as int] == items@[i as int]@);
                match &items[i] {
                    Tree::Text(_) => {},
                    _ => {
                        assert(!(tree@->List_0[i as int] is Text));
                        return false;
                    },
                }
                i += 1;
            }
            true
        },
        _ => false,
    }
}

fn find_missing(entries: &Vec<(&str, &Tree)>, wanted: &[&str]) -> (r: Option<String>)
    ensures
        text_of(r) == missing_in(
            fields_view(entries@),
            Seq::new(wanted@.len(), |i: int| wanted@[i]@),
        ),
{
    let ghost all = Seq::new(wanted@.len(), |i: int| wanted@[i]@);
    let mut i: usize = 0;
    assert(all.skip(0) == all);
    while i < wanted.len()
        invariant
            i <= wanted@.len(),
            all == Seq::new(wanted@.len(), |i: int| wanted@[i]@),
            missing_in(fields_view(entries@), all) == missing_in(
                fields_view(entries@),
                all.skip(i as int),
            ),
        decreases wanted@.len() - i,
    {
        assert(all.skip(i as int)[0] == wanted@[i as int]@);
        assert(all.skip(i as int).drop_first() == all.skip(i + 1));
        if crate::config::field(entries, wanted[i]).is_none() {
            return Some("missing field ".to_owned().concat(&mark(wanted[i])));
        }
        i += 1;
    }
    assert(all.skip(i as int).len() == 0);
    None
}

/// The first thing that does not fit in a part, in words.
pub fn complain(part: Part, key: &str, tree: &Tree) -> (r: Option<String>)
    ensures
        text_of(r) == complaint(part, key@, tree@),
    decreases depth(part), 2int, 0nat,
{
    let names = keys(part);
    match entries_in(tree, &names) {
        Some(entries) => {
            let ghost all = fields_view(entries@);
            let mut i: usize = 0;
            assert(all.skip(0) == all);
            while i < entries.len()
                invariant
                    i <= entries@.len(),
                    all == fields_view(entries@),
                    complaint(part, key@, tree@) == match complaint_in(part, all) {
                        Some(why) => Some(why),
                        None => missing_in(all, required_of(part)),
                    },
                    complaint_in(part, all) == complaint_in(part, all.skip(i as int)),
                decreases entries@.len() - i,
            {
                assert(all.skip(i as int)[0] == all[i as int]);
                assert(all.skip(i as int).drop_first() == all.skip(i + 1));
                let why = complain_about(part, entries[i].0, entries[i].1);
                if why.is_some() {
                    return why;
                }
                i += 1;
            }
            assert(all.skip(i as int).len() == 0);
            find_missing(&entries, &required(part))
        },
        None => Some(say_wrong_kind(key, "a table")),
    }
}

fn complain_about(part: Part, key: &str, tree: &Tree) -> (r: Option<String>)
    ensures
        text_of(r) == complaint_about(part, key@, tree@),
    decreases depth(part), 0int, 0nat,
{
    match kind(part, key) {
        None => Some(
            "unknown field ".to_owned().concat(&mark(key)).concat(", expected ").concat(
                &name_choices(&keys(part)),
            ),
        ),
        Some(Kind::Text) => match tree {
            Tree::Text(_) => None,
            _ => Some(say_wrong_kind(key, "a string")),
        },
        Some(Kind::Texts) => if are_texts(tree) {
            None
        } else {
            Some(say_wrong_kind(key, "a list of strings"))
        },
        Some(Kind::View) => if view_of_tree(tree).is_some() {
            None
        } else {
            Some(say_wrong_kind(key, "`timeline` or `topics`"))
        },
        Some(Kind::Limit) => if limit_of(tree).is_some() {
            None
        } else {
            Some(say_wrong_kind(key, "u64"))
        },
        Some(Kind::Several(sub)) => match tree {
            Tree::List(items) => {
                proof {
                    list_view(*items);
                }
                let ghost all = items_view(items@);
                let mut i: usize = 0;
                assert(all.skip(0) == all);
                while i < items.len()
                    invariant
                        i <= items@.len(),
                        depth(sub) < depth(part),
                        all == items_view(items@),
                        complaint_about(part, key@, tree@) == complaint_among(sub, key@, all),
                        complaint_among(sub, key@, all) == complaint_among(
                            sub,
                            key@,
                            all.skip(i as int),
                        ),
                    decreases items@.len() - i,
                {
                    assert(all.skip(i as int)[0] == all[i as int]);
                    assert(all.skip(i as int).drop_first() == all.skip(i + 1));
                    let why = complain(sub, key, &items[i]);
                    if why.is_some() {
                        return why;
                    }
                    i += 1;
                }
                assert(all.skip(i as int).len() == 0);
                None
            },
            _ => Some(say_wrong_kind(key, "a list of tables")),
        },
        Some(Kind::One(sub)) => complain(sub, key, tree),
    }
}

} // verus!
