//! What stands in the configuration is what the library goes by.
use crate::config::{
    category_fault, category_keys, category_named, category_of, config_keys, config_normalised,
    config_of, events_keys, events_of, first_fault, judged, limit_in, normalised, only_keys,
    space_fault, space_hosted, space_keys, space_of, usable_slug, view_in, CategoryView, ConfigView,
    EventsView, Fault, SpaceView,
};
use crate::text::ascii_lower;
use crate::tree::{entry, TreeView};
use vstd::prelude::*;
use vstd::string::*;

verus! {

/// A slug is made of small letters, digits and dashes, and is not empty.
pub proof fn what_a_slug_is(front: Seq<char>, c: char)
    ensures
        !usable_slug(Seq::empty()),
        usable_slug(front.push(c)) <==> (front.len() == 0 || usable_slug(front)) && (('a' <= c
            && c <= 'z') || ('0' <= c && c <= '9') || c == '-'),
{
    let slug = front.push(c);
    if usable_slug(slug) {
        assert(crate::config::slug_char(slug.last()));
        assert forall|i: int| 0 <= i < front.len() implies crate::config::slug_char(
            #[trigger] front[i],
        ) by {
            assert(slug[i] == front[i]);
        }
    }
}

/// A host without a port is the host in small letters.
pub proof fn a_host_in_small_letters(host: Seq<char>)
    requires
        !host.contains(':'),
    ensures
        normalised(host) == ascii_lower(host),
        normalised(host + seq![':']) == ascii_lower(host),
{
    let with = host + seq![':'];
    assert forall|i: int| 0 <= i < host.len() implies host[i] != ':' by {
        assert(host.contains(host[i]));
    }
    crate::text::first_at_found(host, ':', host.len() as int);
    assert(host.take(host.len() as int) == host);
    crate::text::first_at_found(with, ':', host.len() as int);
    assert(with.take(host.len() as int) == host);
}

/// The first space with a host is the one that answers for it, and where there
/// is none, none does.
pub proof fn a_host_finds_its_space(
    front: Seq<SpaceView>,
    space: SpaceView,
    back: Seq<SpaceView>,
    host: Seq<char>,
)
    requires
        forall|i: int| 0 <= i < front.len() ==> (#[trigger] front[i]).host != host,
    ensures
        space.host == host ==> space_hosted(front.push(space) + back, host) == Some(space),
        space_hosted(front, host) is None,
    decreases front.len(),
{
    let all = front.push(space) + back;
    if front.len() > 0 {
        let rest = front.drop_first();
        assert forall|i: int| 0 <= i < rest.len() implies (#[trigger] rest[i]).host != host by {
            assert(rest[i] == front[i + 1]);
        }
        a_host_finds_its_space(rest, space, back, host);
        assert(all.drop_first() == rest.push(space) + back);
        assert(all[0] == front[0]);
    } else {
        assert(all[0] == space);
    }
}

/// The first category with a slug is the one that is meant by it, and where
/// there is none, none is.
pub proof fn a_slug_finds_its_category(
    front: Seq<CategoryView>,
    category: CategoryView,
    back: Seq<CategoryView>,
    slug: Seq<char>,
)
    requires
        forall|i: int| 0 <= i < front.len() ==> (#[trigger] front[i]).slug != slug,
    ensures
        category.slug == slug ==> category_named(front.push(category) + back, slug) == Some(
            category,
        ),
        category_named(front, slug) is None,
    decreases front.len(),
{
    let all = front.push(category) + back;
    if front.len() > 0 {
        let rest = front.drop_first();
        assert forall|i: int| 0 <= i < rest.len() implies (#[trigger] rest[i]).slug != slug by {
            assert(rest[i] == front[i + 1]);
        }
        a_slug_finds_its_category(rest, category, back, slug);
        assert(all.drop_first() == rest.push(category) + back);
        assert(all[0] == front[0]);
    } else {
        assert(all[0] == category);
    }
}

/// What stands in a table under a name is what the first entry of that name says.
pub proof fn found(table: Seq<(Seq<char>, TreeView)>, at: int)
    requires
        0 <= at < table.len(),
        forall|i: int| 0 <= i < at ==> (#[trigger] table[i]).0 != table[at].0,
    ensures
        entry(table, table[at].0) == Some(table[at].1),
    decreases at,
{
    if at > 0 {
        let rest = table.drop_first();
        assert forall|i: int| 0 <= i < at - 1 implies (#[trigger] rest[i]).0 != rest[at - 1].0 by {
            assert(rest[i] == table[i + 1]);
        }
        assert(rest[at - 1] == table[at]);
        assert(table[0].0 != table[at].0);
        found(rest, at - 1);
    }
}

proof fn missing(table: Seq<(Seq<char>, TreeView)>, key: Seq<char>)
    requires
        forall|i: int| 0 <= i < table.len() ==> (#[trigger] table[i]).0 != key,
    ensures
        entry(table, key) is None,
    decreases table.len(),
{
    if table.len() > 0 {
        let rest = table.drop_first();
        assert forall|i: int| 0 <= i < rest.len() implies (#[trigger] rest[i]).0 != key by {
            assert(rest[i] == table[i + 1]);
        }
        missing(rest, key);
    }
}

/// A list of texts, as it stands in a file.
pub open spec fn listed(list: Seq<Seq<char>>) -> TreeView {
    TreeView::List(Seq::new(list.len(), |i: int| TreeView::Text(list[i])))
}

proof fn listing(list: Seq<Seq<char>>)
    ensures
        crate::config::all_texts(listed(list)->List_0) == Some(list),
{
    let items = listed(list)->List_0;
    assert(forall|i: int| 0 <= i < items.len() ==> (#[trigger] items[i]) is Text);
    assert(Seq::new(items.len(), |i: int| items[i]->Text_0) == list);
}

/// A category is what is written under its four names.
pub proof fn a_category_is_what_was_written(
    slug: Seq<char>,
    title: Seq<char>,
    post: Seq<Seq<char>>,
    reply: Seq<Seq<char>>,
)
    ensures
        category_of(
            TreeView::Table(
                seq![
                    ("slug"@, TreeView::Text(slug)),
                    ("title"@, TreeView::Text(title)),
                    ("post"@, listed(post)),
                    ("reply"@, listed(reply)),
                ],
            ),
        ) == Some(CategoryView { slug, title, post, reply }),
        category_of(
            TreeView::Table(
                seq![("slug"@, TreeView::Text(slug)), ("title"@, TreeView::Text(title))],
            ),
        ) == Some(CategoryView { slug, title, post: Seq::empty(), reply: Seq::empty() }),
        category_of(TreeView::Table(seq![("slug"@, TreeView::Text(slug))])) is None,
        category_of(TreeView::Table(seq![("title"@, TreeView::Text(title))])) is None,
{
    reveal_strlit("slug");
    reveal_strlit("title");
    reveal_strlit("post");
    reveal_strlit("reply");
    assert("slug"@[0] != "post"@[0] && "title"@[0] != "reply"@[0]);
    let keys = category_keys();
    listing(post);
    listing(reply);
    let t = seq![
        ("slug"@, TreeView::Text(slug)),
        ("title"@, TreeView::Text(title)),
        ("post"@, listed(post)),
        ("reply"@, listed(reply)),
    ];
    assert forall|i: int| 0 <= i < t.len() implies keys.contains((#[trigger] t[i]).0) by {
        assert(keys[i] == t[i].0);
    }
    found(t, 0);
    found(t, 1);
    found(t, 2);
    found(t, 3);
    let u = seq![("slug"@, TreeView::Text(slug)), ("title"@, TreeView::Text(title))];
    assert forall|i: int| 0 <= i < u.len() implies keys.contains((#[trigger] u[i]).0) by {
        assert(keys[i] == u[i].0);
    }
    found(u, 0);
    found(u, 1);
    missing(u, "post"@);
    missing(u, "reply"@);
    missing(seq![("slug"@, TreeView::Text(slug))], "title"@);
    missing(seq![("title"@, TreeView::Text(title))], "slug"@);
}

/// A name that means nothing in a category is refused.
pub proof fn a_name_that_means_nothing(table: Seq<(Seq<char>, TreeView)>, i: int)
    requires
        0 <= i < table.len(),
        table[i].0 != "slug"@,
        table[i].0 != "title"@,
        table[i].0 != "post"@,
        table[i].0 != "reply"@,
    ensures
        category_of(TreeView::Table(table)) is None,
{
    assert(!category_keys().contains(table[i].0));
    assert(!only_keys(table, category_keys()));
}

/// A space is what is written under its names.
#[verifier::rlimit(60)]
pub proof fn a_space_is_what_was_written(
    space: SpaceView,
    category: TreeView,
    articles: Seq<char>,
    home: Seq<char>,
)
    requires
        category_of(category) is Some,
        space.categories == seq![category_of(category)->0],
        space.articles == Some(articles),
        space.home == Some(home),
    ensures
        space_of(
            TreeView::Table(
                seq![
                    ("host"@, TreeView::Text(space.host)),
                    ("title"@, TreeView::Text(space.title)),
                    (
                        "view"@,
                        TreeView::Text(
                            if space.view == crate::config::View::Timeline {
                                "timeline"@
                            } else {
                                "topics"@
                            },
                        ),
                    ),
                    ("read"@, listed(space.read)),
                    ("category"@, TreeView::List(seq![category])),
                    ("articles"@, TreeView::Text(articles)),
                    ("attachment_max_bytes"@, TreeView::Wide(space.attachment_max_bytes as i128)),
                    ("title_key"@, TreeView::Text(space.title_key)),
                    ("home"@, TreeView::Text(home)),
                ],
            ),
        ) == Some(space),
{
    space_names_differ();
    reveal_strlit("timeline");
    reveal_strlit("topics");
    assert("timeline"@.len() != "topics"@.len());
    let keys = space_keys();
    let t = seq![
        ("host"@, TreeView::Text(space.host)),
        ("title"@, TreeView::Text(space.title)),
        (
            "view"@,
            TreeView::Text(
                if space.view == crate::config::View::Timeline {
                    "timeline"@
                } else {
                    "topics"@
                },
            ),
        ),
        ("read"@, listed(space.read)),
        ("category"@, TreeView::List(seq![category])),
        ("articles"@, TreeView::Text(articles)),
        ("attachment_max_bytes"@, TreeView::Wide(space.attachment_max_bytes as i128)),
        ("title_key"@, TreeView::Text(space.title_key)),
        ("home"@, TreeView::Text(home)),
    ];
    assert forall|i: int| 0 <= i < t.len() implies (#[trigger] t[i]).0 == keys[i] by {}
    assert forall|i: int| 0 <= i < t.len() implies keys.contains((#[trigger] t[i]).0) by {
        assert(keys[i] == t[i].0);
    }
    assert forall|i: int| 0 <= i < t.len() implies entry(t, #[trigger] keys[i]) == Some(t[i].1) by {
        assert(t[i].0 == keys[i]);
        assert forall|j: int| 0 <= j < i implies (#[trigger] t[j]).0 != t[i].0 by {
            assert(t[j].0 == keys[j]);
        }
        found(t, i);
    }
    assert(keys[0] == "host"@ && keys[1] == "title"@ && keys[2] == "view"@ && keys[3] == "read"@);
    assert(keys[4] == "category"@ && keys[5] == "articles"@ && keys[6] == "attachment_max_bytes"@);
    assert(keys[7] == "title_key"@ && keys[8] == "home"@);
    listing(space.read);
    let items = seq![category];
    assert(Seq::new(items.len(), |i: int| category_of(items[i])->0) == space.categories);
    assert(crate::config::categories_of(items) == Some(space.categories));
    assert(space_of(TreeView::Table(t)) == Some(space));
}

proof fn space_names_differ()
    ensures
        forall|i: int, j: int|
            0 <= i < j < space_keys().len() ==> (#[trigger] space_keys()[i]) != (
            #[trigger] space_keys()[j]),
        space_keys().len() == 9,
{
    reveal_strlit("host");
    reveal_strlit("title");
    reveal_strlit("view");
    reveal_strlit("read");
    reveal_strlit("category");
    reveal_strlit("articles");
    reveal_strlit("attachment_max_bytes");
    reveal_strlit("title_key");
    reveal_strlit("home");
    assert("host"@[2] != "home"@[2]);
    assert("host"@[0] != "view"@[0] && "host"@[0] != "read"@[0]);
    assert("view"@[0] != "read"@[0] && "view"@[0] != "home"@[0] && "read"@[0] != "home"@[0]);
    assert("category"@[0] != "articles"@[0]);
    assert("host"@.len() == 4 && "view"@.len() == 4 && "read"@.len() == 4 && "home"@.len() == 4);
    assert("title"@.len() == 5 && "category"@.len() == 8 && "articles"@.len() == 8);
    assert("title_key"@.len() == 9 && "attachment_max_bytes"@.len() == 20);
    let keys = space_keys();
    assert(keys[0] == "host"@ && keys[1] == "title"@ && keys[2] == "view"@ && keys[3] == "read"@);
    assert(keys[4] == "category"@ && keys[5] == "articles"@ && keys[6] == "attachment_max_bytes"@);
    assert(keys[7] == "title_key"@ && keys[8] == "home"@);
}

/// A space that says no more than it has to takes pictures of up to eight
/// megabytes and finds the title of an article under `title`.
pub proof fn what_a_space_need_not_say(host: Seq<char>, title: Seq<char>)
    ensures
        space_of(
            TreeView::Table(
                seq![
                    ("host"@, TreeView::Text(host)),
                    ("title"@, TreeView::Text(title)),
                    ("view"@, TreeView::Text("topics"@)),
                ],
            ),
        ) == Some(
            SpaceView {
                host,
                title,
                view: crate::config::View::Topics,
                read: Seq::empty(),
                categories: Seq::empty(),
                articles: None,
                attachment_max_bytes: 8388608,
                title_key: "title"@,
                home: None,
            },
        ),
{
    space_names_differ();
    reveal_strlit("timeline");
    reveal_strlit("topics");
    assert("timeline"@.len() != "topics"@.len());
    let keys = space_keys();
    let t = seq![
        ("host"@, TreeView::Text(host)),
        ("title"@, TreeView::Text(title)),
        ("view"@, TreeView::Text("topics"@)),
    ];
    assert(keys[0] == "host"@ && keys[1] == "title"@ && keys[2] == "view"@ && keys[3] == "read"@);
    assert(keys[4] == "category"@ && keys[5] == "articles"@ && keys[6] == "attachment_max_bytes"@);
    assert(keys[7] == "title_key"@ && keys[8] == "home"@);
    assert forall|i: int| 0 <= i < t.len() implies keys.contains((#[trigger] t[i]).0) by {
        assert(keys[i] == t[i].0);
    }
    found(t, 0);
    found(t, 1);
    found(t, 2);
    assert forall|k: int, i: int| 3 <= k < 9 && 0 <= i < 3 implies keys[k] != (
    #[trigger] t[i]).0 && #[trigger] keys[k] != keys[i] by {
        assert(t[i].0 == keys[i]);
    }
    missing(t, "read"@);
    missing(t, "category"@);
    missing(t, "articles"@);
    missing(t, "attachment_max_bytes"@);
    missing(t, "title_key"@);
    missing(t, "home"@);
}

/// A limit is a number of bytes, and none that is below nothing or too large to
/// count.
pub proof fn what_a_limit_is(n: i128)
    ensures
        limit_in(TreeView::Wide(n)) is Some <==> 0 <= n && n < 18446744073709551616int,
        limit_in(TreeView::Wide(n)) is Some ==> limit_in(TreeView::Wide(n))->0 == n,
        limit_in(TreeView::Text("1"@)) is None,
{
}

/// There are two ways to show a space, and no third.
pub proof fn two_ways_to_show_a_space(word: Seq<char>)
    ensures
        view_in(TreeView::Text(word)) == if word == "timeline"@ {
            Some(crate::config::View::Timeline)
        } else if word == "topics"@ {
            Some(crate::config::View::Topics)
        } else {
            None
        },
{
}

/// Where reports go, and where they may lead, is what is written there.
pub proof fn reports_go_where_it_says(space: Seq<char>, hosts: Seq<Seq<char>>)
    ensures
        events_of(
            TreeView::Table(
                seq![("space"@, TreeView::Text(space)), ("link_hosts"@, listed(hosts))],
            ),
        ) == Some(EventsView { space, link_hosts: hosts }),
        events_of(TreeView::Table(seq![("space"@, TreeView::Text(space))])) == Some(
            EventsView { space, link_hosts: Seq::empty() },
        ),
        events_of(TreeView::Table(Seq::empty())) is None,
{
    reveal_strlit("space");
    reveal_strlit("link_hosts");
    assert("space"@.len() != "link_hosts"@.len());
    listing(hosts);
    let keys = events_keys();
    let t = seq![("space"@, TreeView::Text(space)), ("link_hosts"@, listed(hosts))];
    assert forall|i: int| 0 <= i < t.len() implies keys.contains((#[trigger] t[i]).0) by {
        assert(keys[i] == t[i].0);
    }
    found(t, 0);
    found(t, 1);
    let u = seq![("space"@, TreeView::Text(space))];
    assert forall|i: int| 0 <= i < u.len() implies keys.contains((#[trigger] u[i]).0) by {
        assert(keys[i] == u[i].0);
    }
    found(u, 0);
    missing(u, "link_hosts"@);
}

/// A configuration is its zone, its spaces and where reports go.
pub proof fn a_configuration_is_what_was_written(zone: Seq<char>, space: TreeView, events: TreeView)
    requires
        space_of(space) is Some,
        events_of(events) is Some,
    ensures
        config_of(
            TreeView::Table(
                seq![
                    ("timezone"@, TreeView::Text(zone)),
                    ("space"@, TreeView::List(seq![space])),
                    ("events"@, events),
                ],
            ),
        ) == Some(
            ConfigView {
                timezone: Some(zone),
                spaces: seq![space_of(space)->0],
                events: events_of(events),
            },
        ),
        config_of(TreeView::Table(Seq::empty())) == Some(
            ConfigView { timezone: None, spaces: Seq::empty(), events: None },
        ),
{
    reveal_strlit("timezone");
    reveal_strlit("space");
    reveal_strlit("events");
    assert("timezone"@.len() == 8 && "space"@.len() == 5 && "events"@.len() == 6);
    let keys = config_keys();
    let t = seq![
        ("timezone"@, TreeView::Text(zone)),
        ("space"@, TreeView::List(seq![space])),
        ("events"@, events),
    ];
    assert forall|i: int| 0 <= i < t.len() implies keys.contains((#[trigger] t[i]).0) by {
        assert(keys[i] == t[i].0);
    }
    found(t, 0);
    found(t, 1);
    found(t, 2);
    let items = seq![space];
    assert(Seq::new(items.len(), |i: int| space_of(items[i])->0) == seq![space_of(space)->0]);
    assert(crate::config::spaces_of(items) == Some(seq![space_of(space)->0]));
}

/// Can a space be offered as it stands: can somebody read it, does it have a
/// category, and is each category's slug a slug, and its own?
pub open spec fn can_be_offered(space: SpaceView) -> bool {
    &&& space.read.len() > 0
    &&& space.categories.len() > 0
    &&& forall|i: int|
        0 <= i < space.categories.len() ==> usable_slug((#[trigger] space.categories[i]).slug)
    &&& forall|i: int, j: int|
        0 <= i < j < space.categories.len() ==> (#[trigger] space.categories[i]).slug != (
        #[trigger] space.categories[j]).slug
}

proof fn categories_without_fault(host: Seq<char>, cats: Seq<CategoryView>, from: int)
    requires
        0 <= from,
    ensures
        category_fault(host, cats, from) is None <==> (forall|k: int|
            from <= k < cats.len() ==> usable_slug((#[trigger] cats[k]).slug)) && (forall|
            j: int,
            k: int,
        |
            0 <= j < k < cats.len() && from <= k ==> (#[trigger] cats[j]).slug != (
            #[trigger] cats[k]).slug),
    decreases cats.len() - from,
{
    if from < cats.len() {
        categories_without_fault(host, cats, from + 1);
    }
}

proof fn spaces_without_fault(spaces: Seq<SpaceView>, from: int)
    requires
        0 <= from,
    ensures
        first_fault(spaces, from) is None <==> forall|i: int|
            from <= i < spaces.len() ==> (#[trigger] space_fault(spaces, i)) is None,
    decreases spaces.len() - from,
{
    if from < spaces.len() {
        spaces_without_fault(spaces, from + 1);
    }
}

/// A configuration is accepted if its zone is known, if no two of its spaces
/// answer for one host, and if every space can be offered; and then it is taken
/// as it stands, with every host in small letters and without a port.
pub proof fn what_configuration_is_accepted(c: ConfigView, zone_known: bool)
    ensures
        judged(c, zone_known) is Ok <==> (c.timezone is None || zone_known) && (forall|
            i: int,
            j: int,
        |
            0 <= i < j < c.spaces.len() ==> normalised((#[trigger] c.spaces[i]).host)
                != normalised((#[trigger] c.spaces[j]).host)) && (forall|i: int|
            0 <= i < c.spaces.len() ==> can_be_offered(#[trigger] c.spaces[i])),
        judged(c, zone_known) matches Ok(taken) ==> {
            &&& taken.timezone == c.timezone
            &&& taken.events == c.events
            &&& taken.spaces.len() == c.spaces.len()
            &&& forall|i: int|
                0 <= i < c.spaces.len() ==> (#[trigger] taken.spaces[i]) == (SpaceView {
                    host: normalised(c.spaces[i].host),
                    ..c.spaces[i]
                })
        },
{
    let n = config_normalised(c).spaces;
    spaces_without_fault(n, 0);
    assert forall|i: int| 0 <= i < n.len() implies ((#[trigger] space_fault(n, i)) is None
        <==> can_be_offered(c.spaces[i]) && (forall|j: int|
        0 <= j < i ==> normalised((#[trigger] c.spaces[j]).host) != normalised(
            c.spaces[i].host,
        ))) by {
        assert(n[i] == (SpaceView { host: normalised(c.spaces[i].host), ..c.spaces[i] }));
        categories_without_fault(n[i].host, n[i].categories, 0);
        if exists|j: int| 0 <= j < i && (#[trigger] n[j]).host == n[i].host {
            let j = choose|j: int| 0 <= j < i && (#[trigger] n[j]).host == n[i].host;
            assert(normalised(c.spaces[j].host) == normalised(c.spaces[i].host));
        } else {
            assert forall|j: int| 0 <= j < i implies normalised((#[trigger] c.spaces[j]).host)
                != normalised(c.spaces[i].host) by {
                assert(n[j].host == normalised(c.spaces[j].host));
            }
        }
    }
    if judged(c, zone_known) is Ok {
        assert forall|i: int, j: int| 0 <= i < j < c.spaces.len() implies normalised(
            (#[trigger] c.spaces[i]).host,
        ) != normalised((#[trigger] c.spaces[j]).host) by {
            assert(space_fault(n, j) is None);
        }
        assert forall|i: int| 0 <= i < c.spaces.len() implies can_be_offered(
            #[trigger] c.spaces[i],
        ) by {
            assert(space_fault(n, i) is None);
        }
    }
}

/// A configuration with one space that cannot be offered is refused for what is
/// wrong with it.
pub proof fn what_is_wrong_with_a_space(c: ConfigView, space: SpaceView, zone: Seq<char>)
    requires
        c.spaces == seq![space],
    ensures
        c.timezone == Some(zone) ==> judged(c, false) == Err::<ConfigView, _>(
            Fault::UnknownTimeZone(zone),
        ),
        space.categories.len() == 0 ==> judged(c, true) == Err::<ConfigView, _>(
            Fault::NoCategories(normalised(space.host)),
        ),
        space.categories.len() > 0 && space.read.len() == 0 ==> judged(c, true) == Err::<
            ConfigView,
            _,
        >(Fault::NobodyCanRead(normalised(space.host))),
        space.categories.len() > 0 && space.read.len() > 0 && !usable_slug(
            space.categories[0].slug,
        ) ==> judged(c, true) == Err::<ConfigView, _>(
            Fault::InvalidSlug { space: normalised(space.host), slug: space.categories[0].slug },
        ),
        space.categories.len() == 2 && space.read.len() > 0 && usable_slug(
            space.categories[0].slug,
        ) && space.categories[0].slug == space.categories[1].slug ==> judged(c, true) == Err::<
            ConfigView,
            _,
        >(
            Fault::DuplicateCategory {
                space: normalised(space.host),
                slug: space.categories[0].slug,
            },
        ),
{
    let n = config_normalised(c).spaces;
    assert(n[0] == (SpaceView { host: normalised(space.host), ..space }));
    reveal_with_fuel(first_fault, 2);
    reveal_with_fuel(category_fault, 3);
    assert(!(exists|j: int| 0 <= j < 0 && (#[trigger] n[j]).host == n[0].host));
    if space.categories.len() == 2 {
        let cats = space.categories;
        assert(n[0].categories == cats);
        assert(!(exists|j: int| 0 <= j < 0 && (#[trigger] cats[j]).slug == cats[0].slug));
        if cats[0].slug == cats[1].slug {
            assert(exists|j: int| 0 <= j < 1 && (#[trigger] cats[j]).slug == cats[1].slug);
        }
    }
}

/// Two spaces for one host are refused, however the host is written.
pub proof fn one_host_one_space(c: ConfigView, a: SpaceView, b: SpaceView)
    requires
        c.spaces == seq![a, b],
        can_be_offered(a),
        normalised(a.host) == normalised(b.host),
    ensures
        judged(c, true) == Err::<ConfigView, _>(Fault::DuplicateHost(normalised(b.host))),
{
    let n = config_normalised(c).spaces;
    reveal_with_fuel(first_fault, 3);
    assert(n[0] == (SpaceView { host: normalised(a.host), ..a }));
    assert(n[1] == (SpaceView { host: normalised(b.host), ..b }));
    categories_without_fault(n[0].host, n[0].categories, 0);
    assert(!(exists|j: int| 0 <= j < 0 && (#[trigger] n[j]).host == n[0].host));
    assert(space_fault(n, 0) is None);
    assert(n[0].host == n[1].host);
    assert(exists|j: int| 0 <= j < 1 && (#[trigger] n[j]).host == n[1].host);
}

/// Is there nothing under this name, or a list of texts?
pub open spec fn texts_or_nothing(table: Seq<(Seq<char>, TreeView)>, name: Seq<char>) -> bool {
    match entry(table, name) {
        None => true,
        Some(TreeView::List(items)) => forall|i: int|
            0 <= i < items.len() ==> (#[trigger] items[i]) is Text,
        _ => false,
    }
}

/// Is there nothing under this name, or a text?
pub open spec fn text_or_nothing(table: Seq<(Seq<char>, TreeView)>, name: Seq<char>) -> bool {
    match entry(table, name) {
        None => true,
        Some(TreeView::Text(_)) => true,
        _ => false,
    }
}

/// Is there a text under this name?
pub open spec fn a_text(table: Seq<(Seq<char>, TreeView)>, name: Seq<char>) -> bool {
    match entry(table, name) {
        Some(TreeView::Text(_)) => true,
        _ => false,
    }
}

/// A category, and where reports go, can be read if every name in it means
/// something and every value is of its kind; what has to be there is there.
pub proof fn which_categories_can_be_read(table: Seq<(Seq<char>, TreeView)>)
    ensures
        category_of(TreeView::Table(table)) is Some <==> (forall|i: int|
            0 <= i < table.len() ==> (#[trigger] table[i]).0 == "slug"@ || table[i].0 == "title"@
                || table[i].0 == "post"@ || table[i].0 == "reply"@) && a_text(table, "slug"@)
            && a_text(table, "title"@) && texts_or_nothing(table, "post"@) && texts_or_nothing(
            table,
            "reply"@,
        ),
        events_of(TreeView::Table(table)) is Some <==> (forall|i: int|
            0 <= i < table.len() ==> (#[trigger] table[i]).0 == "space"@ || table[i].0
                == "link_hosts"@) && a_text(table, "space"@) && texts_or_nothing(
            table,
            "link_hosts"@,
        ),
{
    let keys = category_keys();
    assert(keys[0] == "slug"@ && keys[1] == "title"@ && keys[2] == "post"@ && keys[3] == "reply"@);
    assert forall|k: Seq<char>| #[trigger] keys.contains(k) <==> k == "slug"@ || k == "title"@ || k
        == "post"@ || k == "reply"@ by {
        if keys.contains(k) {
            let i = choose|i: int| 0 <= i < keys.len() && keys[i] == k;
            assert(i == 0 || i == 1 || i == 2 || i == 3);
        }
    }
    let others = events_keys();
    assert(others[0] == "space"@ && others[1] == "link_hosts"@);
    assert forall|k: Seq<char>| #[trigger] others.contains(k) <==> k == "space"@ || k
        == "link_hosts"@ by {
        if others.contains(k) {
            let i = choose|i: int| 0 <= i < others.len() && others[i] == k;
            assert(i == 0 || i == 1);
        }
    }
}

/// A configuration can be read if every name in it means something, if its zone
/// is a text, and if every space, and where reports go, can be read.
pub proof fn which_configurations_can_be_read(table: Seq<(Seq<char>, TreeView)>)
    ensures
        config_of(TreeView::Table(table)) is Some <==> (forall|i: int|
            0 <= i < table.len() ==> (#[trigger] table[i]).0 == "timezone"@ || table[i].0
                == "space"@ || table[i].0 == "events"@) && text_or_nothing(table, "timezone"@) && (
        match entry(table, "space"@) {
            None => true,
            Some(TreeView::List(items)) => forall|i: int|
                0 <= i < items.len() ==> space_of(#[trigger] items[i]) is Some,
            _ => false,
        }) && (match entry(table, "events"@) {
            None => true,
            Some(tree) => events_of(tree) is Some,
        }),
{
    let keys = config_keys();
    assert(keys[0] == "timezone"@ && keys[1] == "space"@ && keys[2] == "events"@);
    assert forall|k: Seq<char>| #[trigger] keys.contains(k) <==> k == "timezone"@ || k == "space"@
        || k == "events"@ by {
        if keys.contains(k) {
            let i = choose|i: int| 0 <= i < keys.len() && keys[i] == k;
            assert(i == 0 || i == 1 || i == 2);
        }
    }
}

/// A space can be read if every name in it means something and every value is of
/// its kind; its host, its title and how it is shown have to be there.
pub proof fn which_spaces_can_be_read(table: Seq<(Seq<char>, TreeView)>)
    ensures
        space_of(TreeView::Table(table)) is Some <==> (forall|i: int|
            0 <= i < table.len() ==> (#[trigger] table[i]).0 == "host"@ || table[i].0 == "title"@
                || table[i].0 == "view"@ || table[i].0 == "read"@ || table[i].0 == "category"@
                || table[i].0 == "articles"@ || table[i].0 == "attachment_max_bytes"@ || table[i].0
                == "title_key"@ || table[i].0 == "home"@) && a_text(table, "host"@) && a_text(
            table,
            "title"@,
        ) && (match entry(table, "view"@) {
            Some(tree) => view_in(tree) is Some,
            None => false,
        }) && texts_or_nothing(table, "read"@) && (match entry(table, "category"@) {
            None => true,
            Some(TreeView::List(items)) => forall|i: int|
                0 <= i < items.len() ==> category_of(#[trigger] items[i]) is Some,
            _ => false,
        }) && text_or_nothing(table, "articles"@) && text_or_nothing(table, "title_key"@)
            && text_or_nothing(table, "home"@) && (match entry(table, "attachment_max_bytes"@) {
            None => true,
            Some(tree) => limit_in(tree) is Some,
        }),
{
    let keys = space_keys();
    assert(keys[0] == "host"@ && keys[1] == "title"@ && keys[2] == "view"@ && keys[3] == "read"@);
    assert(keys[4] == "category"@ && keys[5] == "articles"@ && keys[6] == "attachment_max_bytes"@);
    assert(keys[7] == "title_key"@ && keys[8] == "home"@);
    assert forall|k: Seq<char>| #[trigger] keys.contains(k) <==> k == "host"@ || k == "title"@ || k
        == "view"@ || k == "read"@ || k == "category"@ || k == "articles"@ || k
        == "attachment_max_bytes"@ || k == "title_key"@ || k == "home"@ by {
        if keys.contains(k) {
            let i = choose|i: int| 0 <= i < keys.len() && keys[i] == k;
            assert(i == 0 || i == 1 || i == 2 || i == 3 || i == 4 || i == 5 || i == 6 || i == 7 || i
                == 8);
        }
    }
}

} // verus!
