//! Two languages, one set of keys.
//!
//! The interface is German and English; the code, the configuration and the
//! documentation are English. The catalogues are part of the library, so a
//! deployment cannot lose them and a missing file cannot turn into a page of
//! empty labels.
use crate::text::{
    ascii_lower, chars, find_char, first_at, same, to_ascii_lower, trim_bounds, trimmed,
};
use vstd::prelude::*;
use vstd::string::*;

verus! {

#[derive(Debug, Clone, Copy, PartialEq, Eq, Structural)]
pub enum Lang {
    De,
    En,
}

/// Everything the interface says: the key, German, English.
pub open spec fn catalogue_words() -> Seq<(Seq<char>, Seq<char>, Seq<char>)> {
    seq![
        ("sign_out"@, "Abmelden"@, "Sign out"@),
        ("search_placeholder"@, "Suchen"@, "Search"@),
        ("notifications"@, "Benachrichtigungen"@, "Notifications"@),
        ("all_notifications"@, "Alle Benachrichtigungen"@, "All notifications"@),
        ("nothing_new_short"@, "Nichts Neues"@, "Nothing new"@),
        (
            "nothing_new"@,
            "Hier ist noch nichts. Antworten, Erwähnungen und Likes stehen an dieser Stelle."@,
            "Nothing here yet. Replies, mentions and likes show up in this place."@,
        ),
        ("new_reply_in"@, "neue Antwort in"@, "new reply in"@),
        ("new_replies_in"@, "neue Antworten in"@, "new replies in"@),
        ("reply_in"@, "Antwort in"@, "reply in"@),
        ("replies_in"@, "Antworten in"@, "replies in"@),
        ("latest_from"@, "zuletzt von"@, "latest from"@),
        ("mentioned_you_in"@, "hat dich erwähnt in"@, "mentioned you in"@),
        ("film_available"@, "ist da"@, "is available"@),
        ("film_failed"@, "ist fehlgeschlagen"@, "has failed"@),
        ("likes_your_post_in"@, "gefällt dein Beitrag in"@, "likes your post in"@),
        ("and"@, "und"@, "and"@),
        (
            "others_like_your_post_in"@,
            "anderen gefällt dein Beitrag in"@,
            "others like your post in"@,
        ),
        ("unread"@, "ungelesen"@, "unread"@),
        (
            "footer_note"@,
            "Ein Forum für einen geschlossenen Kreis."@,
            "A forum for a closed circle."@,
        ),
        ("sections"@, "Bereiche"@, "Sections"@),
        ("topic_one"@, "1 Thema"@, "1 topic"@),
        ("topic_many"@, "Themen"@, "topics"@),
        ("last_activity"@, "zuletzt"@, "last activity"@),
        ("no_topics_yet"@, "noch keine Themen"@, "no topics yet"@),
        ("recent"@, "Zuletzt geschrieben"@, "Recently written"@),
        ("search_results"@, "Suchergebnisse"@, "Search results"@),
        ("search_prompt"@, "Wonach soll gesucht werden?"@, "What should be looked for?"@),
        ("search_nothing"@, "Nichts gefunden."@, "Nothing found."@),
        ("unsubscribe_title"@, "Abbestellen"@, "Unsubscribe"@),
        (
            "unsubscribe_question"@,
            "Keine Mails mehr zu diesem Thema?"@,
            "No more mail about this topic?"@,
        ),
        (
            "unsubscribe_mentions_question"@,
            "Keine Mails mehr zu Erwähnungen?"@,
            "No more mail about mentions?"@,
        ),
        ("unsubscribe_confirm"@, "Abbestellen"@, "Unsubscribe"@),
        ("unsubscribed_title"@, "Abbestellt"@, "Unsubscribed"@),
        (
            "unsubscribed_note"@,
            "Zu diesem Thema kommt keine Mail mehr."@,
            "There will be no more mail about this topic."@,
        ),
        (
            "unsubscribed_mentions_note"@,
            "Zu Erwähnungen kommt keine Mail mehr."@,
            "There will be no more mail about mentions."@,
        ),
        ("col_topic"@, "Thema"@, "Topic"@),
        ("col_replies"@, "Antworten"@, "Replies"@),
        ("col_likes"@, "Likes"@, "Likes"@),
        ("col_last_reply"@, "Letzte Antwort"@, "Last reply"@),
        ("no_replies_yet"@, "noch keine Antworten"@, "no replies yet"@),
        ("like"@, "Gefällt mir"@, "Like"@),
        ("unlike"@, "Gefällt mir nicht mehr"@, "Unlike"@),
        ("likes_one"@, "1 Like"@, "1 like"@),
        ("likes_many"@, "Likes"@, "likes"@),
        ("delete_title"@, "Beitrag löschen"@, "Delete a post"@),
        (
            "delete_question"@,
            "Dieser Beitrag wird gelöscht und kommt nicht wieder."@,
            "This post will be deleted and will not come back."@,
        ),
        ("delete"@, "Löschen"@, "Delete"@),
        ("cancel"@, "Abbrechen"@, "Cancel"@),
        ("nothing_here"@, "Hier ist noch nichts."@, "Nothing here yet."@),
        ("no_comments_yet"@, "noch keine Kommentare"@, "no comments yet"@),
        ("comment_count_one"@, "1 Kommentar"@, "1 comment"@),
        ("comment_count_many"@, "Kommentare"@, "comments"@),
        ("new_topic"@, "Neues Thema"@, "New topic"@),
        ("field_title"@, "Titel"@, "Title"@),
        ("field_text"@, "Text"@, "Text"@),
        ("open_topic"@, "Thema eröffnen"@, "Open the topic"@),
        ("reply_count_one"@, "1 Antwort"@, "1 reply"@),
        ("reply_count_many"@, "Antworten"@, "replies"@),
        (
            "following_note"@,
            "Du bekommst eine Mail, wenn hier jemand antwortet."@,
            "You get a mail when somebody replies here."@,
        ),
        ("follow"@, "Folgen"@, "Follow"@),
        ("unfollow"@, "Nicht mehr folgen"@, "Unfollow"@),
        ("edited"@, "bearbeitet"@, "edited"@),
        ("edit"@, "Bearbeiten"@, "Edit"@),
        ("save"@, "Speichern"@, "Save"@),
        ("top"@, "nach oben"@, "to the top"@),
        ("reply"@, "Antworten"@, "Reply"@),
        ("post_reply"@, "Antwort schreiben"@, "Post the reply"@),
        ("attach_picture"@, "Bild"@, "Picture"@),
        ("caption"@, "Beschreibung"@, "Caption"@),
        ("attach"@, "Bild anhängen"@, "Attach the picture"@),
        ("mark_all_read"@, "Alles als gelesen markieren"@, "Mark everything as read"@),
        ("mention_mail_off"@, "Keine Mail bei Erwähnungen"@, "No mail for mentions"@),
        ("mention_mail_on"@, "Mail bei Erwähnungen"@, "Mail for mentions"@),
        (
            "mention_mail_is_on"@,
            "Du bekommst eine Mail, wenn dich jemand erwähnt."@,
            "You get a mail when somebody mentions you."@,
        ),
        (
            "mention_mail_is_off"@,
            "Du bekommst keine Mail, wenn dich jemand erwähnt."@,
            "You get no mail when somebody mentions you."@,
        ),
    ]
}

/// One entry of the catalogue.
#[derive(Debug, Clone, Copy)]
pub struct Word {
    pub key: &'static str,
    pub de: &'static str,
    pub en: &'static str,
}

impl View for Word {
    type V = (Seq<char>, Seq<char>, Seq<char>);

    open spec fn view(&self) -> (Seq<char>, Seq<char>, Seq<char>) {
        (self.key@, self.de@, self.en@)
    }
}

pub open spec fn words_view(words: Seq<Word>) -> Seq<(Seq<char>, Seq<char>, Seq<char>)> {
    Seq::new(words.len(), |i: int| words[i]@)
}

fn word(key: &'static str, de: &'static str, en: &'static str) -> (r: Word)
    ensures
        r@ == (key@, de@, en@),
{
    Word { key, de, en }
}

/// Everything the interface says.
#[verifier::rlimit(50)]
pub fn catalogue() -> (r: Vec<Word>)
    ensures
        words_view(r@) == catalogue_words(),
{
    let words: Vec<Word> = vec![
        word("sign_out", "Abmelden", "Sign out"),
        word("search_placeholder", "Suchen", "Search"),
        word("notifications", "Benachrichtigungen", "Notifications"),
        word("all_notifications", "Alle Benachrichtigungen", "All notifications"),
        word("nothing_new_short", "Nichts Neues", "Nothing new"),
        word(
            "nothing_new",
            "Hier ist noch nichts. Antworten, Erwähnungen und Likes stehen an dieser Stelle.",
            "Nothing here yet. Replies, mentions and likes show up in this place.",
        ),
        word("new_reply_in", "neue Antwort in", "new reply in"),
        word("new_replies_in", "neue Antworten in", "new replies in"),
        word("reply_in", "Antwort in", "reply in"),
        word("replies_in", "Antworten in", "replies in"),
        word("latest_from", "zuletzt von", "latest from"),
        word("mentioned_you_in", "hat dich erwähnt in", "mentioned you in"),
        word("film_available", "ist da", "is available"),
        word("film_failed", "ist fehlgeschlagen", "has failed"),
        word("likes_your_post_in", "gefällt dein Beitrag in", "likes your post in"),
        word("and", "und", "and"),
        word(
            "others_like_your_post_in",
            "anderen gefällt dein Beitrag in",
            "others like your post in",
        ),
        word("unread", "ungelesen", "unread"),
        word(
            "footer_note",
            "Ein Forum für einen geschlossenen Kreis.",
            "A forum for a closed circle.",
        ),
        word("sections", "Bereiche", "Sections"),
        word("topic_one", "1 Thema", "1 topic"),
        word("topic_many", "Themen", "topics"),
        word("last_activity", "zuletzt", "last activity"),
        word("no_topics_yet", "noch keine Themen", "no topics yet"),
        word("recent", "Zuletzt geschrieben", "Recently written"),
        word("search_results", "Suchergebnisse", "Search results"),
        word("search_prompt", "Wonach soll gesucht werden?", "What should be looked for?"),
        word("search_nothing", "Nichts gefunden.", "Nothing found."),
        word("unsubscribe_title", "Abbestellen", "Unsubscribe"),
        word(
            "unsubscribe_question",
            "Keine Mails mehr zu diesem Thema?",
            "No more mail about this topic?",
        ),
        word(
            "unsubscribe_mentions_question",
            "Keine Mails mehr zu Erwähnungen?",
            "No more mail about mentions?",
        ),
        word("unsubscribe_confirm", "Abbestellen", "Unsubscribe"),
        word("unsubscribed_title", "Abbestellt", "Unsubscribed"),
        word(
            "unsubscribed_note",
            "Zu diesem Thema kommt keine Mail mehr.",
            "There will be no more mail about this topic.",
        ),
        word(
            "unsubscribed_mentions_note",
            "Zu Erwähnungen kommt keine Mail mehr.",
            "There will be no more mail about mentions.",
        ),
        word("col_topic", "Thema", "Topic"),
        word("col_replies", "Antworten", "Replies"),
        word("col_likes", "Likes", "Likes"),
        word("col_last_reply", "Letzte Antwort", "Last reply"),
        word("no_replies_yet", "noch keine Antworten", "no replies yet"),
        word("like", "Gefällt mir", "Like"),
        word("unlike", "Gefällt mir nicht mehr", "Unlike"),
        word("likes_one", "1 Like", "1 like"),
        word("likes_many", "Likes", "likes"),
        word("delete_title", "Beitrag löschen", "Delete a post"),
        word(
            "delete_question",
            "Dieser Beitrag wird gelöscht und kommt nicht wieder.",
            "This post will be deleted and will not come back.",
        ),
        word("delete", "Löschen", "Delete"),
        word("cancel", "Abbrechen", "Cancel"),
        word("nothing_here", "Hier ist noch nichts.", "Nothing here yet."),
        word("no_comments_yet", "noch keine Kommentare", "no comments yet"),
        word("comment_count_one", "1 Kommentar", "1 comment"),
        word("comment_count_many", "Kommentare", "comments"),
        word("new_topic", "Neues Thema", "New topic"),
        word("field_title", "Titel", "Title"),
        word("field_text", "Text", "Text"),
        word("open_topic", "Thema eröffnen", "Open the topic"),
        word("reply_count_one", "1 Antwort", "1 reply"),
        word("reply_count_many", "Antworten", "replies"),
        word(
            "following_note",
            "Du bekommst eine Mail, wenn hier jemand antwortet.",
            "You get a mail when somebody replies here.",
        ),
        word("follow", "Folgen", "Follow"),
        word("unfollow", "Nicht mehr folgen", "Unfollow"),
        word("edited", "bearbeitet", "edited"),
        word("edit", "Bearbeiten", "Edit"),
        word("save", "Speichern", "Save"),
        word("top", "nach oben", "to the top"),
        word("reply", "Antworten", "Reply"),
        word("post_reply", "Antwort schreiben", "Post the reply"),
        word("attach_picture", "Bild", "Picture"),
        word("caption", "Beschreibung", "Caption"),
        word("attach", "Bild anhängen", "Attach the picture"),
        word("mark_all_read", "Alles als gelesen markieren", "Mark everything as read"),
        word("mention_mail_off", "Keine Mail bei Erwähnungen", "No mail for mentions"),
        word("mention_mail_on", "Mail bei Erwähnungen", "Mail for mentions"),
        word(
            "mention_mail_is_on",
            "Du bekommst eine Mail, wenn dich jemand erwähnt.",
            "You get a mail when somebody mentions you.",
        ),
        word(
            "mention_mail_is_off",
            "Du bekommst keine Mail, wenn dich jemand erwähnt.",
            "You get no mail when somebody mentions you.",
        ),
    ];
    assert(words_view(words@) =~= catalogue_words());
    words
}

/// The text under a key, in a language.
pub open spec fn looked_up(
    words: Seq<(Seq<char>, Seq<char>, Seq<char>)>,
    lang: Lang,
    key: Seq<char>,
) -> Option<Seq<char>>
    decreases words.len(),
{
    if words.len() == 0 {
        None
    } else if words[0].0 == key {
        Some(
            match lang {
                Lang::De => words[0].1,
                Lang::En => words[0].2,
            },
        )
    } else {
        looked_up(words.skip(1), lang, key)
    }
}

/// What the interface says under a key. A missing key says the key itself.
#[verifier::opaque]
pub open spec fn said(lang: Lang, key: Seq<char>) -> Seq<char> {
    match looked_up(catalogue_words(), lang, key) {
        Some(text) => text,
        None => key,
    }
}

/// The language with this primary tag, if it is one that is spoken here.
pub open spec fn spoken(primary: Seq<char>) -> Option<Lang> {
    if primary == "de"@ {
        Some(Lang::De)
    } else if primary == "en"@ {
        Some(Lang::En)
    } else {
        None
    }
}

/// The primary tag of one entry of the header.
pub open spec fn primary_tag(part: Seq<char>) -> Seq<char> {
    let tag = trimmed(part.take(first_at(part, ';')));
    ascii_lower(tag.take(first_at(tag, '-')))
}

/// The language of a header: the first one that is spoken here.
pub open spec fn lang_of(header: Seq<char>) -> Lang
    decreases header.len(),
{
    let n = first_at(header, ',');
    match spoken(primary_tag(header.take(n))) {
        Some(lang) => lang,
        None => if 0 <= n < header.len() {
            lang_of(header.skip(n + 1))
        } else {
            Lang::En
        },
    }
}

fn language(part: &[char]) -> (r: Option<Lang>)
    ensures
        r == spoken(primary_tag(part@)),
{
    let end: usize = find_char(part, ';');
    assert(part@.subrange(0, end as int) == part@.take(first_at(part@, ';')));
    let (from, to) = trim_bounds(&part[0..end]);
    let ghost tag = trimmed(part@.take(first_at(part@, ';')));
    assert(part@.subrange(0, end as int).subrange(from as int, to as int) == part@.subrange(
        from as int,
        to as int,
    ));
    let stop: usize = find_char(&part[from..to], '-');
    assert(part@.subrange(from as int, from + stop) == tag.take(first_at(tag, '-')));
    let primary = to_ascii_lower(&part[from..from + stop]);
    if same(&primary, "de") {
        Some(Lang::De)
    } else if same(&primary, "en") {
        Some(Lang::En)
    } else {
        None
    }
}

impl Lang {
    /// Reads `Accept-Language`. Anything that is not German is English:
    /// English is the project's default, because a stranger who finds this
    /// software should not land in a language they cannot read. The first
    /// language that is spoken here wins, not the first one listed.
    pub fn from_accept_language(header: &str) -> (r: Lang)
        ensures
            r == lang_of(header@),
    {
        let all = chars(header);
        let mut at: usize = 0;
        assert(header@.skip(0) == header@);
        loop
            invariant
                at <= all@.len(),
                all@ == header@,
                lang_of(header@) == lang_of(header@.skip(at as int)),
            decreases all@.len() - at,
        {
            let ghost rest = header@.skip(at as int);
            assert(all@.subrange(at as int, all@.len() as int) == rest);
            let n: usize = find_char(&all[at..all.len()], ',');
            assert(all@.subrange(at as int, at + n) == rest.take(first_at(rest, ',')));
            match language(&all[at..at + n]) {
                Some(lang) => {
                    return lang;
                },
                None => {
                    if at + n == all.len() {
                        return Lang::En;
                    }
                    assert(rest.skip(n + 1) == header@.skip(at + n + 1));
                    at = at + n + 1;
                },
            }
        }
    }

    /// The text for a key. A missing key yields the key itself: visible in the
    /// page, harmless to a reader, and impossible to miss for whoever put it
    /// there.
    pub fn t<'a>(&self, key: &'a str) -> (r: &'a str)
        ensures
            r@ == said(*self, key@),
    {
        let words = catalogue();
        let ghost all = words_view(words@);
        let mut i: usize = 0;
        assert(all.skip(0) == all);
        while i < words.len()
            invariant
                i <= words@.len(),
                all == words_view(words@),
                all == catalogue_words(),
                looked_up(all, *self, key@) == looked_up(all.skip(i as int), *self, key@),
            decreases words@.len() - i,
        {
            assert(all.skip(i as int)[0] == words@[i as int]@);
            assert(all.skip(i as int).skip(1) == all.skip(i + 1));
            if same(words[i].key, key) {
                reveal(said);
                return match self {
                    Lang::De => words[i].de,
                    Lang::En => words[i].en,
                };
            }
            i += 1;
        }
        assert(all.skip(i as int).len() == 0);
        reveal(said);
        key
    }

    pub open spec fn tag(self) -> Seq<char> {
        match self {
            Lang::De => "de"@,
            Lang::En => "en"@,
        }
    }

    pub fn code(&self) -> (r: &'static str)
        ensures
            r@ == self.tag(),
    {
        match self {
            Lang::De => "de",
            Lang::En => "en",
        }
    }
}

/// Both languages say something under the same keys: what one has a text for,
/// the other has one for.
pub proof fn both_languages_have_the_same_keys(
    words: Seq<(Seq<char>, Seq<char>, Seq<char>)>,
    key: Seq<char>,
)
    ensures
        looked_up(words, Lang::De, key) is Some == looked_up(words, Lang::En, key) is Some,
    decreases words.len(),
{
    if words.len() > 0 {
        both_languages_have_the_same_keys(words.skip(1), key);
    }
}

/// A language that asks for itself by its own code gets itself.
pub proof fn a_code_asks_for_its_language(lang: Lang)
    ensures
        lang_of(lang.tag()) == lang,
{
    reveal_strlit("de");
    reveal_strlit("en");
    let tag = lang.tag();
    assert(tag.len() == 2);
    crate::text::first_at_found(tag, ',', 2);
    crate::text::first_at_found(tag, ';', 2);
    crate::text::first_at_found(tag, '-', 2);
    assert(tag.take(2) == tag);
    crate::text::trimmed_ends(tag);
    assert(!crate::text::white(tag[0]) && !crate::text::white(tag[1]));
    assert(trimmed(tag) == tag);
    assert(ascii_lower(tag) =~= tag);
}

} // verus!
