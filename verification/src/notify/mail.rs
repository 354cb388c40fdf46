//! Mail: what it takes to send one, and what one says.
use crate::notify::{
    read_secret, secret_in, Message, MessageView, SecretError, SecretFault, SecretFile,
};
use crate::text::{
    ascii_lower, chars, html_char, html_text, number_in, same, text_of, to_ascii_lower,
};
use vstd::prelude::*;
use vstd::string::*;

verus! {

/// What it takes to send. Read once, at startup: a mail server that is
/// misconfigured should say so then, not on the evening somebody replies.
#[derive(Debug, Clone)]
pub struct Settings {
    pub host: String,
    pub port: u16,
    pub username: Option<String>,
    pub password: Option<String>,
    /// The envelope sender, and the address a reply to a notification goes to.
    pub from: String,
    /// TLS on the submission port. Off is only for a test server on localhost,
    /// and `from_env` refuses to turn it off together with credentials:
    /// sending a password in the clear is not a configuration, it is an
    /// accident.
    pub starttls: bool,
}

/// Why mail is not set up.
#[derive(Debug)]
pub enum SettingsError {
    Port,
    Sender,
    Password(SecretError),
    InTheClear,
}

pub enum SettingsFault {
    Port,
    Sender,
    Password(SecretFault),
    InTheClear,
}

impl View for SettingsError {
    type V = SettingsFault;

    open spec fn view(&self) -> SettingsFault {
        match self {
            SettingsError::Port => SettingsFault::Port,
            SettingsError::Sender => SettingsFault::Sender,
            SettingsError::Password(e) => SettingsFault::Password(e@),
            SettingsError::InTheClear => SettingsFault::InTheClear,
        }
    }
}

/// What is said of a fault.
pub open spec fn fault_text(fault: SettingsFault) -> Seq<char> {
    match fault {
        SettingsFault::Port => "TREFF_SMTP_PORT is not a port number"@,
        SettingsFault::Sender => "TREFF_SMTP_FROM is not set; mail needs a sender"@,
        SettingsFault::Password(SecretFault::Unreadable { path, reason }) => "cannot read "@ + path
            + ": "@ + reason,
        SettingsFault::Password(SecretFault::Blank { path }) => path
            + " is empty; a blank password is not a password"@,
        SettingsFault::InTheClear =>
            "TREFF_SMTP_STARTTLS is off and a password is configured; sending credentials in the clear is not a configuration"@,
    }
}

impl SettingsError {
    pub fn message(&self) -> (r: String)
        ensures
            r@ == fault_text(self@),
    {
        match self {
            SettingsError::Port => "TREFF_SMTP_PORT is not a port number".to_owned(),
            SettingsError::Sender => "TREFF_SMTP_FROM is not set; mail needs a sender".to_owned(),
            SettingsError::Password(SecretError::Unreadable { path, reason }) =>
                "cannot read ".to_owned().concat(path).concat(": ").concat(reason),
            SettingsError::Password(SecretError::Blank { path }) => path.clone().concat(
                " is empty; a blank password is not a password",
            ),
            SettingsError::InTheClear =>
                "TREFF_SMTP_STARTTLS is off and a password is configured; sending credentials in the clear is not a configuration".to_owned(),
        }
    }
}

/// The port a text names: digits, with or without a plus in front.
pub open spec fn port_in(text: Seq<char>) -> Option<u16> {
    let digits = if text.len() > 1 && text[0] == '+' {
        text.skip(1)
    } else {
        text
    };
    match number_in(digits) {
        Some(n) if digits.len() > 0 && n <= u16::MAX => Some(n as u16),
        _ => None,
    }
}

proof fn a_number_grows(s: Seq<char>, n: int)
    requires
        0 <= n <= s.len(),
        number_in(s) is Some,
    ensures
        number_in(s.take(n)) is Some,
        number_in(s.take(n))->0 <= number_in(s)->0,
    decreases s.len() - n,
{
    if n == s.len() {
        assert(s.take(n) == s);
    } else {
        a_number_grows(s, n + 1);
        assert(s.take(n + 1).drop_last() == s.take(n));
    }
}

/// The port a text names.
pub fn parse_port(text: &str) -> (r: Option<u16>)
    ensures
        r == port_in(text@),
{
    let all = chars(text);
    let from: usize = if all.len() > 1 && all[0] == '+' {
        1
    } else {
        0
    };
    let ghost digits = text@.skip(from as int);
    assert(text@.skip(0) == text@);
    if from == all.len() {
        return None;
    }
    let mut n: u32 = 0;
    let mut i: usize = from;
    assert(digits.take(0).len() == 0);
    while i < all.len()
        invariant
            from <= i <= all@.len(),
            from < all@.len(),
            all@ == text@,
            digits == text@.skip(from as int),
            from == if text@.len() > 1 && text@[0] == '+' {
                1int
            } else {
                0int
            },
            digits == if text@.len() > 1 && text@[0] == '+' {
                text@.skip(1)
            } else {
                text@
            },
            n <= u16::MAX,
            number_in(digits.take(i - from)) == Some(n as nat),
        decreases all@.len() - i,
    {
        let c = all[i];
        assert(digits.take(i + 1 - from).drop_last() == digits.take(i - from));
        assert(digits.take(i + 1 - from).last() == c);
        proof {
            if number_in(digits) is Some {
                a_number_grows(digits, i + 1 - from);
            }
        }
        if c < '0' || c > '9' {
            return None;
        }
        let d: u32 = c as u32 - 48;
        n = n * 10 + d;
        if n > 65535 {
            return None;
        }
        i += 1;
    }
    assert(digits.take(i - from) == digits);
    Some(n as u16)
}

/// Is TLS on, as the setting says? It is, unless the setting says otherwise.
pub open spec fn tls_on(setting: Option<Seq<char>>) -> bool {
    setting is None || setting->0 != "0"@ && ascii_lower(setting->0) != "false"@
}

impl Settings {
    /// From what the environment says, with the password from a **file**.
    ///
    /// Gives `None` when no host is configured. Notifications are then not a
    /// broken feature but an absent one, which is what makes the mail part
    /// optional for whoever does not want it.
    pub fn from_env(
        host: Option<String>,
        port: Option<String>,
        from: Option<String>,
        username: Option<String>,
        password_file: Option<SecretFile>,
        starttls: Option<String>,
    ) -> (r: Result<Option<Settings>, SettingsError>)
        ensures
            ({
                let asked = match port {
                    Some(port) => port_in(port@),
                    None => Some(587u16),
                };
                let secret = secret_in(password_file);
                let tls = tls_on(text_of(starttls));
                match r {
                    Ok(None) => host is None,
                    Ok(Some(s)) => {
                        &&& host is Some && s.host@ == host->0@
                        &&& asked == Some(s.port)
                        &&& from is Some && s.from@ == from->0@
                        &&& text_of(s.username) == if username is Some && username->0@.len() > 0 {
                            Some(username->0@)
                        } else {
                            None
                        }
                        &&& secret == Ok::<_, SecretFault>(text_of(s.password))
                        &&& s.starttls == tls
                        &&& s.starttls || s.password is None
                    },
                    Err(e) => host is Some && e@ == (if asked is None {
                        SettingsFault::Port
                    } else if from is None {
                        SettingsFault::Sender
                    } else if secret is Err {
                        SettingsFault::Password(secret->Err_0)
                    } else {
                        SettingsFault::InTheClear
                    }),
                }
            }),
            r is Ok == (host is None || (match port {
                Some(port) => port_in(port@) is Some,
                None => true,
            }) && from is Some && secret_in(password_file) is Ok && (tls_on(text_of(starttls))
                || secret_in(password_file)->Ok_0 is None)),
    {
        let host = match host {
            Some(host) => host,
            None => {
                return Ok(None);
            },
        };
        let port: u16 = match port {
            Some(port) => match parse_port(&port) {
                Some(port) => port,
                None => {
                    return Err(SettingsError::Port);
                },
            },
            None => 587,
        };
        let from = match from {
            Some(from) => from,
            None => {
                return Err(SettingsError::Sender);
            },
        };
        let username = match username {
            Some(username) => if username.as_str().is_empty() {
                None
            } else {
                Some(username)
            },
            None => None,
        };
        let password = match read_secret(password_file) {
            Ok(password) => password,
            Err(e) => {
                return Err(SettingsError::Password(e));
            },
        };
        let starttls = match starttls {
            Some(setting) => !same(&setting, "0") && !same(
                &to_ascii_lower(&chars(&setting)),
                "false",
            ),
            None => true,
        };
        if !starttls && password.is_some() {
            return Err(SettingsError::InTheClear);
        }
        Ok(Some(Settings { host, port, username, password, from, starttls }))
    }
}

/// Escaping by hand, because the body of a post is somebody else's text and
/// this is the one place it leaves the sanitizer's reach. The Markdown is sent
/// as it was typed: a notification is a nudge, not a rendering.
pub fn escape(s: &str) -> (r: String)
    ensures
        r@ == html_text(s@),
{
    let all = chars(s);
    let mut out = String::new();
    let mut i: usize = 0;
    assert(all@.take(0).len() == 0);
    while i < all.len()
        invariant
            i <= all@.len(),
            out@ == html_text(all@.take(i as int)),
        decreases all@.len() - i,
    {
        assert(all@.take(i + 1).drop_last() == all@.take(i as int));
        assert(all@.take(i + 1).last() == all@[i as int]);
        let ghost before = out@;
        let c = all[i];
        if c == '&' {
            out = out.concat("&amp;");
        } else if c == '<' {
            out = out.concat("&lt;");
        } else if c == '>' {
            out = out.concat("&gt;");
        } else if c == '"' {
            out = out.concat("&quot;");
        } else {
            out.push(c);
            assert(out@ == before + html_char(c));
        }
        i += 1;
    }
    assert(all@.take(i as int) == all@);
    out
}

/// What stands over a mail.
pub open spec fn subject_of(message: MessageView) -> Seq<char> {
    message.space_title + ": "@ + message.topic_title
}

/// What stands over a mail.
pub fn subject(message: &Message) -> (r: String)
    ensures
        r@ == subject_of(message@),
{
    message.space_title.clone().concat(": ").concat(&message.topic_title)
}

/// The mail as plain text: as it was typed, because that is what plain means.
pub open spec fn plain_of(message: MessageView) -> Seq<char> {
    message.author + " wrote in \""@ + message.topic_title + "\":\n\n"@ + message.body + "\n\n"@
        + message.link + "\n"@
}

/// The mail as HTML: nothing in it that somebody typed is markup.
pub open spec fn html_of(message: MessageView) -> Seq<char> {
    "<p><b>"@ + html_text(message.author) + "</b> wrote in \u{201c}"@ + html_text(
        message.topic_title,
    ) + "\u{201d}:</p><blockquote>"@ + html_text(message.body) + "</blockquote><p><a href=\""@
        + html_text(message.link) + "\">"@ + html_text(message.link) + "</a></p>"@
}

/// Plain text and HTML. Plain first, because that is what a reader without
/// HTML sees, and because a notification is three lines and a link.
pub fn body_parts(message: &Message) -> (r: (String, String))
    ensures
        r.0@ == plain_of(message@),
        r.1@ == html_of(message@),
{
    let plain = message.author.clone().concat(" wrote in \"").concat(&message.topic_title).concat(
        "\":\n\n",
    ).concat(&message.body).concat("\n\n").concat(&message.link).concat("\n");
    let link = escape(&message.link);
    let html = "<p><b>".to_owned().concat(&escape(&message.author)).concat(
        "</b> wrote in \u{201c}",
    ).concat(&escape(&message.topic_title)).concat("\u{201d}:</p><blockquote>").concat(
        &escape(&message.body),
    ).concat("</blockquote><p><a href=\"").concat(&link).concat("\">").concat(&link).concat(
        "</a></p>",
    );
    (plain, html)
}

/// What lets a mail client offer the way out itself: that is the difference
/// between somebody unsubscribing and somebody reaching for the spam button.
/// The names of two headers, and what they say.
pub fn unsubscribe_headers(message: &Message) -> (r: Option<(String, String)>)
    ensures
        match r {
            Some((list, post)) => message@.unsubscribe is Some && list@ == "<"@
                + message@.unsubscribe->0 + ">"@ && post@ == "List-Unsubscribe=One-Click"@,
            None => message@.unsubscribe is None,
        },
{
    match &message.unsubscribe {
        Some(url) => Some(
            (
                "<".to_owned().concat(url).concat(">"),
                "List-Unsubscribe=One-Click".to_owned(),
            ),
        ),
        None => None,
    }
}

} // verus!
