//! Getting a notification out of the building.
//!
//! The queue is in `db::outbox`; this module turns one owed row into one
//! message and says what becomes of the row. The split is deliberate: **the
//! order of things, retry, back off, give up, is decided here, without a
//! network**, and the transport is the only part that needs one.
use crate::auth::groups_stored;
use crate::authz::shares_group;
use crate::config::{normalised, space_hosted, Config, ConfigView, SpaceView};
use crate::db::accounts::may_read_now;
use crate::db::outbox::{
    about_mention, mark_failed, wait_after, Failure, Owed, OwedView, ERROR_CHARS, LONGEST_WAIT,
};
use crate::db::topics::{Post, Topic};
use crate::notify::unsubscribe::token_of;
use crate::text::{decimal, decimal_text, same, text_of, trim, trimmed};
use vstd::prelude::*;
use vstd::string::*;

pub mod mail;
pub mod unsubscribe;
pub mod webhook;

verus! {

/// How long the sender rests between two looks at the queue, in seconds.
pub const REST_SECONDS: u64 = 30;

/// How many rows the sender takes at a time.
pub const BATCH: usize = 25;

/// One notification, ready to be worded by a transport.
#[derive(Debug, Clone)]
pub struct Message {
    pub to: String,
    pub space_title: String,
    pub topic_title: String,
    pub author: String,
    pub body: String,
    /// Absolute, because it is followed from a mail client that has no idea
    /// what host it came from.
    pub link: String,
    /// The one-click way out.
    pub unsubscribe: Option<String>,
}

pub struct MessageView {
    pub to: Seq<char>,
    pub space_title: Seq<char>,
    pub topic_title: Seq<char>,
    pub author: Seq<char>,
    pub body: Seq<char>,
    pub link: Seq<char>,
    pub unsubscribe: Option<Seq<char>>,
}

impl View for Message {
    type V = MessageView;

    open spec fn view(&self) -> MessageView {
        MessageView {
            to: self.to@,
            space_title: self.space_title@,
            topic_title: self.topic_title@,
            author: self.author@,
            body: self.body@,
            link: self.link@,
            unsubscribe: text_of(self.unsubscribe),
        }
    }
}

/// The first post with this id.
pub open spec fn post_called(posts: Seq<Post>, id: i64) -> Option<Post>
    decreases posts.len(),
{
    if posts.len() == 0 {
        None
    } else if posts[0].id == id {
        Some(posts[0])
    } else {
        post_called(posts.skip(1), id)
    }
}

fn find_post(posts: &[Post], id: i64) -> (r: Option<&Post>)
    ensures
        match r {
            Some(post) => post_called(posts@, id) == Some(*post),
            None => post_called(posts@, id) is None,
        },
{
    let mut i: usize = 0;
    assert(posts@.skip(0) == posts@);
    while i < posts.len()
        invariant
            i <= posts@.len(),
            post_called(posts@, id) == post_called(posts@.skip(i as int), id),
        decreases posts@.len() - i,
    {
        assert(posts@.skip(i as int)[0] == posts@[i as int]);
        assert(posts@.skip(i as int).skip(1) == posts@.skip(i + 1));
        if posts[i].id == id {
            return Some(&posts[i]);
        }
        i += 1;
    }
    assert(posts@.skip(i as int).len() == 0);
    None
}

/// May this person still be told? A mention is for somebody who may read the
/// space NOW, not when it was written; whatever else is owed is owed to a
/// follower, who may.
pub open spec fn still_told(
    reason: Option<Seq<char>>,
    groups: Option<Seq<Seq<char>>>,
    space: Option<SpaceView>,
) -> bool {
    reason == Some("mention"@) ==> space is Some && groups is Some && shares_group(
        groups->0,
        space->0.read,
    )
}

/// Is a notification about `host`, owed for this reason, still one for an
/// account with these groups? No account means no groups, and a space that
/// left the configuration has no readers.
pub fn may_be_told(
    reason: Option<&str>,
    groups_json: Option<&str>,
    config: &Config,
    host: &str,
) -> (r: bool)
    ensures
        r == still_told(
            match reason {
                Some(reason) => Some(reason@),
                None => None,
            },
            match groups_json {
                Some(text) => Some(groups_stored(text.spec_bytes())),
                None => None,
            },
            space_hosted(config@.spaces, normalised(host@)),
        ),
{
    if !about_mention(reason) {
        return true;
    }
    match config.space_for_host(host) {
        Some(space) => may_read_now(groups_json, space),
        None => false,
    }
}

/// What one owed row says, if there is anybody to say it to.
pub open spec fn composed(
    row: OwedView,
    address: Option<Seq<char>>,
    config: ConfigView,
    topic: Option<Topic>,
    posts: Seq<Post>,
    key: Seq<u8>,
) -> Option<MessageView> {
    let space = space_hosted(config.spaces, normalised(row.space));
    let post = post_called(posts, row.post_id);
    if row.kanal == "mail"@ && address is None || space is None || topic is None || post is None {
        None
    } else {
        Some(
            MessageView {
                to: if row.kanal == "mail"@ {
                    address->0
                } else {
                    Seq::empty()
                },
                space_title: space->0.title,
                topic_title: topic->0.title@,
                author: post->0.author_name@,
                body: post->0.body_markdown@,
                link: "https://"@ + row.space + "/t/"@ + decimal_text(row.topic_id as int),
                unsubscribe: Some(
                    "https://"@ + row.space + "/u/"@ + decimal_text(row.id as int) + "/"@
                        + token_of(key, row.id),
                ),
            },
        )
    }
}

/// Turns one owed row into a message, or into `None` when there is nobody to
/// send it to. `topic` is the one the row is about, if it can be found through
/// the row's space, and `posts` are the ones under it.
///
/// `None` is a normal answer, not a failure: a person may have no address at
/// the provider, the space may have left the configuration, and the post may
/// have been deleted between queueing and sending. Retrying either would be
/// retrying a fact. ONLY MAIL NEEDS AN ADDRESS: a webhook goes to a place and
/// not to a person. The way out travels WITH the notification: a link that has
/// to be looked for is one that is not used.
pub fn compose(
    row: &Owed,
    address: Option<String>,
    config: &Config,
    topic: &Option<Topic>,
    posts: &[Post],
    unsubscribe_key: &[u8],
) -> (r: Option<Message>)
    ensures
        match r {
            Some(message) => composed(
                row@,
                text_of(address),
                config@,
                *topic,
                posts@,
                unsubscribe_key@,
            ) == Some(message@),
            None => composed(
                row@,
                text_of(address),
                config@,
                *topic,
                posts@,
                unsubscribe_key@,
            ) is None,
        },
{
    let to = if same(&row.kanal, "mail") {
        match address {
            Some(address) => address,
            None => {
                return None;
            },
        }
    } else {
        String::new()
    };
    let space = match config.space_for_host(&row.space) {
        Some(space) => space,
        None => {
            return None;
        },
    };
    let topic = match topic {
        Some(topic) => topic,
        None => {
            return None;
        },
    };
    let post = match find_post(posts, row.post_id) {
        Some(post) => post,
        None => {
            return None;
        },
    };
    let token = unsubscribe::token(unsubscribe_key, row.id);
    Some(
        Message {
            to,
            space_title: space.title.clone(),
            topic_title: topic.title.clone(),
            author: post.author_name.clone(),
            body: post.body_markdown.clone(),
            link: "https://".to_owned().concat(&row.space).concat("/t/").concat(
                &decimal(row.topic_id),
            ),
            unsubscribe: Some(
                "https://".to_owned().concat(&row.space).concat("/u/").concat(
                    &decimal(row.id),
                ).concat("/").concat(&token),
            ),
        },
    )
}

/// What becomes of a row.
#[derive(Debug)]
pub enum Verdict {
    /// It is done with, and whether anything went out for it.
    Done { delivered: bool },
    /// It is tried again later, or left alone.
    Failed(Failure),
}

/// What became of one row: composing it failed, there was nothing to send, or
/// a transport took it or refused it.
#[derive(Debug)]
pub enum Attempt {
    Nothing,
    Delivered,
    Refused(String),
}

/// What becomes of a row after it was tried.
///
/// Nothing to send, because the person has no address or the post is gone, is
/// DONE, not failed: retrying cannot produce an address, and a row that
/// retries forever hides the ones that would succeed. **A failure of one row
/// is not a failure of the run.**
pub fn settle(row: &Owed, attempt: &Attempt, now: i64) -> (r: Verdict)
    requires
        row.attempts < i64::MAX,
        now <= i64::MAX - LONGEST_WAIT,
    ensures
        match *attempt {
            Attempt::Nothing => r == (Verdict::Done { delivered: false }),
            Attempt::Delivered => r == (Verdict::Done { delivered: true }),
            Attempt::Refused(error) => {
                &&& r is Failed
                &&& r->Failed_0.attempts == row.attempts + 1
                &&& r->Failed_0.next_try_at == now + wait_after(r->Failed_0.attempts)
                &&& r->Failed_0.last_error@ == if error@.len() <= ERROR_CHARS {
                    error@
                } else {
                    error@.take(ERROR_CHARS as int)
                }
            },
        },
{
    match attempt {
        Attempt::Nothing => Verdict::Done { delivered: false },
        Attempt::Delivered => Verdict::Done { delivered: true },
        Attempt::Refused(error) => Verdict::Failed(mark_failed(row.attempts, now, error)),
    }
}

/// A file that holds a secret, and what reading it gave.
#[derive(Debug)]
pub struct SecretFile {
    pub path: String,
    pub contents: Result<String, String>,
}

/// Why there is no secret in a file that should hold one.
#[derive(Debug)]
pub enum SecretError {
    Unreadable { path: String, reason: String },
    Blank { path: String },
}

pub enum SecretFault {
    Unreadable { path: Seq<char>, reason: Seq<char> },
    Blank { path: Seq<char> },
}

impl View for SecretError {
    type V = SecretFault;

    open spec fn view(&self) -> SecretFault {
        match self {
            SecretError::Unreadable { path, reason } => SecretFault::Unreadable {
                path: path@,
                reason: reason@,
            },
            SecretError::Blank { path } => SecretFault::Blank { path: path@ },
        }
    }
}

/// The secret in a file, if one is named: what stands in it, without the space
/// around it. A blank secret is no secret.
pub open spec fn secret_in(file: Option<SecretFile>) -> Result<Option<Seq<char>>, SecretFault> {
    match file {
        None => Ok(None),
        Some(file) => match file.contents {
            Err(reason) => Err(SecretFault::Unreadable { path: file.path@, reason: reason@ }),
            Ok(text) => if trimmed(text@).len() == 0 {
                Err(SecretFault::Blank { path: file.path@ })
            } else {
                Ok(Some(trimmed(text@)))
            },
        },
    }
}

/// The secret in a file, if one is named.
///
/// From a **file**, because a value in the environment is readable in the
/// process table. An empty file is refused like a missing one.
pub fn read_secret(file: Option<SecretFile>) -> (r: Result<Option<String>, SecretError>)
    ensures
        match r {
            Ok(secret) => secret_in(file) == Ok::<_, SecretFault>(text_of(secret)),
            Err(e) => secret_in(file) == Err::<Option<Seq<char>>, _>(e@),
        },
{
    match file {
        None => Ok(None),
        Some(file) => match file.contents {
            Err(reason) => Err(SecretError::Unreadable { path: file.path, reason }),
            Ok(text) => {
                let value = trim(&text);
                if value.as_str().is_empty() {
                    Err(SecretError::Blank { path: file.path })
                } else {
                    Ok(Some(value))
                }
            },
        },
    }
}

/// Every link in a message leads to the space it is about, and the way out is
/// the one for this very row.
pub proof fn a_message_carries_its_own_way_out(
    row: OwedView,
    address: Option<Seq<char>>,
    config: ConfigView,
    topic: Option<Topic>,
    posts: Seq<Post>,
    key: Seq<u8>,
)
    requires
        composed(row, address, config, topic, posts, key) is Some,
    ensures
        ({
            let message = composed(row, address, config, topic, posts, key)->0;
            let way_out = message.unsubscribe->0;
            let front = "https://"@ + row.space + "/u/"@ + decimal_text(row.id as int) + "/"@;
            &&& message.unsubscribe is Some
            &&& way_out == front + token_of(key, row.id)
            &&& row.kanal != "mail"@ ==> message.to.len() == 0
        }),
{
}

} // verus!
