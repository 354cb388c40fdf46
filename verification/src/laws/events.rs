//! What other services may say.
use crate::auth::handle_of;
use crate::config::EventsView;
use crate::db::events::{
    allowed_link, line_of, url_parsed, usable_key, verdict, Kind, LinkView, RawView,
};
use crate::laws::text::{
    blank, solid, trimming_leaves_nothing_of_nothing, trimming_leaves_the_middle,
};
use crate::text::{ascii_lower, trimmed};
use vstd::prelude::*;
use vstd::string::*;

verus! {

/// Is it a text that can stand on one line: no control characters?
pub open spec fn printable(s: Seq<char>) -> bool {
    forall|i: int|
        0 <= i < s.len() ==> {
            let c = (#[trigger] s[i]) as int;
            !(c < 32 || 127 <= c <= 159)
        }
}

/// A line is taken as it is, without the space round it, up to its length and
/// as long as it can stand on one line.
pub proof fn a_line_is_taken_as_it_is(
    left: Seq<char>,
    middle: Seq<char>,
    right: Seq<char>,
    max: int,
)
    requires
        blank(left),
        blank(right),
        solid(middle),
    ensures
        line_of(left + middle + right, max) == if middle.len() <= max && printable(middle) {
            Some(middle)
        } else {
            None
        },
{
    trimming_leaves_the_middle(left, middle, right);
    let t = middle;
    assert forall|i: int| 0 <= i < t.len() implies ({
        let c = (#[trigger] t[i]) as int;
        !(c < 32 || 127 <= c <= 159)
    } <==> !crate::db::events::control(t[i])) by {}
    if !printable(middle) {
        let i = choose|i: int|
            0 <= i < middle.len() && {
                let c = (#[trigger] middle[i]) as int;
                c < 32 || 127 <= c <= 159
            };
        assert(crate::db::events::control(middle[i]));
    }
}

/// Nothing but space is no line.
pub proof fn nothing_is_no_line(s: Seq<char>, max: int)
    requires
        blank(s),
    ensures
        line_of(s, max) is None,
{
    trimming_leaves_nothing_of_nothing(s);
}

/// A key is one to sixty-four letters, digits, colons, underscores and hyphens.
pub proof fn what_a_key_is(key: Seq<char>)
    ensures
        usable_key(key) <==> 1 <= key.len() <= 64 && forall|i: int|
            0 <= i < key.len() ==> {
                let c = #[trigger] key[i];
                ||| 'a' <= c <= 'z'
                ||| 'A' <= c <= 'Z'
                ||| '0' <= c <= '9'
                ||| c == ':'
                ||| c == '_'
                ||| c == '-'
            },
{
    assert forall|i: int| 0 <= i < key.len() implies (crate::db::events::key_char(#[trigger] key[i])
        <==> {
        let c = key[i];
        ||| 'a' <= c <= 'z'
        ||| 'A' <= c <= 'Z'
        ||| '0' <= c <= '9'
        ||| c == ':'
        ||| c == '_'
        ||| c == '-'
    }) by {}
    if 1 <= key.len() <= 64 && !usable_key(key) {
        let i = choose|i: int|
            0 <= i < key.len() && !crate::db::events::key_char(#[trigger] key[i]);
        assert(!crate::db::events::key_char(key[i]));
    }
}

/// A link leads to one of the hosts, whatever the case of its letters, by
/// `https`, and carries neither a user nor a password; it is kept as the parser
/// writes it.
pub proof fn what_link_is_allowed(link: LinkView, hosts: Seq<Seq<char>>)
    ensures
        allowed_link(link, hosts) is Some <==> link.scheme == seq!['h', 't', 't', 'p', 's']
            && link.username.len() == 0 && link.password is None && link.host is Some
            && hosts.contains(ascii_lower(link.host->0)),
        allowed_link(link, hosts) is Some ==> allowed_link(link, hosts)->0 == link.text,
{
    reveal_strlit("https");
    assert("https"@ =~= seq!['h', 't', 't', 'p', 's']);
}

/// An event is taken if every field of it can be, and then it says what the
/// fields say.
pub proof fn what_is_taken_says_what_came(raw: RawView, events: EventsView)
    ensures
        match verdict(raw, events) {
            Ok(event) => {
                &&& Some(event.handle) == handle_of(raw.handle)
                &&& raw.kind == match event.kind {
                    Kind::FilmAvailable => "film_available"@,
                    Kind::FilmFailed => "film_failed"@,
                }
                &&& event.title == trimmed(raw.title)
                &&& 1 <= event.title.len() <= 200
                &&& event.source_key == raw.source_key
                &&& event.reason is Some ==> raw.reason is Some && event.reason->0 == trimmed(
                    raw.reason->0,
                ) && 1 <= event.reason->0.len() <= 300
                &&& event.reason is None ==> raw.reason is None || trimmed(raw.reason->0).len()
                    == 0
                &&& event.link is None ==> raw.link is None || trimmed(raw.link->0).len() == 0
                &&& event.link is Some ==> raw.link is Some && url_parsed(trimmed(raw.link->0))
                    is Some && allowed_link(
                    url_parsed(trimmed(raw.link->0))->0,
                    events.link_hosts,
                ) == event.link
            },
            Err(_) => {
                ||| handle_of(raw.handle) is None
                ||| raw.kind != "film_available"@ && raw.kind != "film_failed"@
                ||| line_of(raw.title, 200) is None
                ||| raw.reason is Some && trimmed(raw.reason->0).len() > 0 && line_of(
                    trimmed(raw.reason->0),
                    300,
                ) is None
                ||| raw.link is Some && trimmed(raw.link->0).len() > 0 && (url_parsed(
                    trimmed(raw.link->0),
                ) is None || allowed_link(
                    url_parsed(trimmed(raw.link->0))->0,
                    events.link_hosts,
                ) is None)
                ||| !usable_key(raw.source_key)
            },
        },
{
    if raw.reason is Some {
        crate::text::trimming_twice(raw.reason->0);
    }
}

} // verus!
