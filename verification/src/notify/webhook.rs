//! The second exit: one request per post, to wherever the operator points it.
//!
//! Generic on purpose: what goes out is JSON with four fields, and whatever
//! ignores `topic` simply ignores it.
use crate::notify::{
    read_secret, secret_in, Message, MessageView, SecretError, SecretFault, SecretFile,
};
use crate::text::{begins, chars, slice_string, starts_with, text_of};
use crate::tree::{entries_view, json_written, table_view, write_json, Tree, TreeView};
use vstd::prelude::*;
use vstd::string::*;

verus! {

/// Where notifications go, besides mail.
#[derive(Debug, Clone)]
pub struct Settings {
    /// **From the configuration and nowhere else.** A webhook whose target
    /// could be steered by something in a post would lead anywhere.
    pub url: String,
    /// Some receivers want the topic in the body when the body is JSON.
    /// Anything else ignores the field.
    pub topic: Option<String>,
    /// A bearer token, from a **file**, the same rule as for every other
    /// secret here, for the same reason.
    pub token: Option<String>,
    pub timeout_seconds: u64,
}

/// How long a delivery may take, in seconds.
pub const TIMEOUT_SECONDS: u64 = 10;

/// How much of a refusal is kept.
pub const REFUSAL_CHARS: usize = 200;

/// Why there is no webhook.
#[derive(Debug)]
pub enum SettingsError {
    Address,
    Token(SecretError),
}

pub enum SettingsFault {
    Address,
    Token(SecretFault),
}

impl View for SettingsError {
    type V = SettingsFault;

    open spec fn view(&self) -> SettingsFault {
        match self {
            SettingsError::Address => SettingsFault::Address,
            SettingsError::Token(e) => SettingsFault::Token(e@),
        }
    }
}

/// What is said of a fault.
pub open spec fn fault_text(fault: SettingsFault) -> Seq<char> {
    match fault {
        SettingsFault::Address => "TREFF_WEBHOOK_URL is not an http(s) URL"@,
        SettingsFault::Token(SecretFault::Unreadable { path, reason }) => "cannot read "@ + path
            + ": "@ + reason,
        SettingsFault::Token(SecretFault::Blank { path }) => path
            + " is empty; a blank token is not a token"@,
    }
}

impl SettingsError {
    pub fn message(&self) -> (r: String)
        ensures
            r@ == fault_text(self@),
    {
        match self {
            SettingsError::Address => "TREFF_WEBHOOK_URL is not an http(s) URL".to_owned(),
            SettingsError::Token(SecretError::Unreadable { path, reason }) =>
                "cannot read ".to_owned().concat(path).concat(": ").concat(reason),
            SettingsError::Token(SecretError::Blank { path }) => path.clone().concat(
                " is empty; a blank token is not a token",
            ),
        }
    }
}

/// Does the address go over http or https?
pub open spec fn web_address(url: Seq<char>) -> bool {
    starts_with(url, "https://"@) || starts_with(url, "http://"@)
}

impl Settings {
    /// `None` when no address is configured: no webhook is an absent feature,
    /// not a broken one.
    pub fn from_env(
        url: Option<String>,
        topic: Option<String>,
        token_file: Option<SecretFile>,
    ) -> (r: Result<Option<Settings>, SettingsError>)
        ensures
            match r {
                Ok(None) => url is None,
                Ok(Some(s)) => {
                    &&& url is Some && s.url@ == url->0@ && web_address(url->0@)
                    &&& text_of(s.topic) == if topic is Some && topic->0@.len() > 0 {
                        Some(topic->0@)
                    } else {
                        None
                    }
                    &&& secret_in(token_file) == Ok::<_, SecretFault>(text_of(s.token))
                    &&& s.timeout_seconds == TIMEOUT_SECONDS
                },
                Err(e) => url is Some && e@ == (if !web_address(url->0@) {
                    SettingsFault::Address
                } else {
                    SettingsFault::Token(secret_in(token_file)->Err_0)
                }),
            },
            r is Ok == (url is None || web_address(url->0@) && secret_in(token_file) is Ok),
    {
        let url = match url {
            Some(url) => url,
            None => {
                return Ok(None);
            },
        };
        let all = chars(&url);
        if !begins(&all, &chars("https://")) && !begins(&all, &chars("http://")) {
            return Err(SettingsError::Address);
        }
        let topic = match topic {
            Some(topic) => if topic.as_str().is_empty() {
                None
            } else {
                Some(topic)
            },
            None => None,
        };
        let token = match read_secret(token_file) {
            Ok(token) => token,
            Err(e) => {
                return Err(SettingsError::Token(e));
            },
        };
        Ok(Some(Settings { url, topic, token, timeout_seconds: TIMEOUT_SECONDS }))
    }
}

/// What goes out: who wrote where, and a link.
pub open spec fn payload(message: MessageView, topic: Option<Seq<char>>) -> TreeView {
    let signal = seq![
        ("title"@, TreeView::Text(message.space_title)),
        (
            "message"@,
            TreeView::Text(
                message.author + " hat in \""@ + message.topic_title + "\" geschrieben"@,
            ),
        ),
        ("click"@, TreeView::Text(message.link)),
    ];
    TreeView::Table(
        match topic {
            Some(topic) => signal.push(("topic"@, TreeView::Text(topic))),
            None => signal,
        },
    )
}

/// The body of the request.
///
/// THE TEXT OF THE POST DOES NOT GO WITH IT, and that is no thrift: the
/// webhook belongs to whoever runs the place, and they have NO special rights
/// here. What is left is the signal: WHO wrote WHERE, and a link there.
pub fn request_body(message: &Message, topic: &Option<String>) -> (r: String)
    ensures
        r@ == json_written(payload(message@, text_of(*topic))),
{
    let mut fields: Vec<(String, Tree)> = vec![
        ("title".to_owned(), Tree::Text(message.space_title.clone())),
        (
            "message".to_owned(),
            Tree::Text(
                message.author.clone().concat(" hat in \"").concat(&message.topic_title).concat(
                    "\" geschrieben",
                ),
            ),
        ),
        ("click".to_owned(), Tree::Text(message.link.clone())),
    ];
    match topic {
        Some(topic) => {
            fields.push(("topic".to_owned(), Tree::Text(topic.clone())));
        },
        None => {},
    }
    proof {
        table_view(fields);
        assert(entries_view(fields@) =~= payload(message@, text_of(*topic))->Table_0);
    }
    write_json(&Tree::Table(fields))
}

/// What the request is authorised with, if anything.
pub fn authorization(token: &Option<String>) -> (r: Option<String>)
    ensures
        text_of(r) == match text_of(*token) {
            Some(token) => Some("Bearer "@ + token),
            None => None,
        },
{
    match token {
        Some(token) => Some("Bearer ".to_owned().concat(token)),
        None => None,
    }
}

/// What is written down of a refusal. The answer is somebody else's server
/// talking: truncated, because it ends up in a table a person reads.
pub fn refusal(status: &str, answer: &str) -> (r: String)
    ensures
        r@ == "the webhook answered "@ + status@ + ": "@ + if answer@.len() <= REFUSAL_CHARS {
            answer@
        } else {
            answer@.take(REFUSAL_CHARS as int)
        },
{
    let all = chars(answer);
    let short = if all.len() <= REFUSAL_CHARS {
        assert(answer@.subrange(0, answer@.len() as int) == answer@);
        slice_string(&all, 0, all.len())
    } else {
        assert(answer@.subrange(0, REFUSAL_CHARS as int) == answer@.take(REFUSAL_CHARS as int));
        slice_string(&all, 0, REFUSAL_CHARS)
    };
    "the webhook answered ".to_owned().concat(status).concat(": ").concat(&short)
}

/// The text of a post never leaves through the webhook: two messages that
/// differ in nothing but the text of the post send the same.
pub proof fn the_post_stays_here(
    message: MessageView,
    body: Seq<char>,
    topic: Option<Seq<char>>,
)
    ensures
        payload(message, topic) == payload(MessageView { body, ..message }, topic),
{
}

} // verus!
