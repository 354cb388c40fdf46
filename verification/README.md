# treff

A small forum for closed groups. Members sign in with your own OIDC provider,
and what they may do follows from the groups in their token. No local accounts,
no passwords, no open registration.

The library under `src/` holds the logic of the forum as verified Rust: each
function states in its contract what it returns, and Verus proves it. The
program under `app/` is not verified. It holds the statements that fetch and
store rows, the routes, the conversations with the identity provider, the mail
server and the browser, and it writes down what the library decides.

## What is where

| Module | What it decides |
|---|---|
| `config`, `complaints` | what a configuration may say, what is wrong with one, and which host is which space |
| `authz` | who may read, post, reply, modify |
| `auth` | settings, sessions, claims, handles, the payload of a token |
| `markup`, `mentions` | from Markdown to safe HTML, and who is named in it |
| `media` | which pictures are taken, and what is removed from them |
| `articles` | files that become topics |
| `clock`, `i18n` | moments and words as a reader sees them |
| `live` | when the bell of an open page is sent again |
| `notify` | what is sent, when it is tried again, and the way out |
| `export` | the statement that copies the database |
| `db` | topics, likes, subscriptions, the inbox, the outbox, the directory |
| `web` | the door, the forms, the pages, the internal listener, SCIM |
| `text`, `order`, `tree`, `codec` | what the others are made of |

Calls into outside crates stand behind small wrappers whose doc comments name
the function they call and what is taken on trust. What holds across functions
is stated as public proof functions, next to the functions they speak of.

## What holds

- An empty group list grants nothing, never everything, and somebody without a
  group may do nothing.
- An unknown `Host` is refused rather than mapped to the first space.
- Nobody gets past the door without a session, but to the paths that are open
  to everybody.
- A post is changed by its author and through its own address alone, and a
  topic that was opened comes back through its own address and no other.
- What was rewritten is what is read, and a reply that goes moves its topic to
  the moment it went.
- A post has one entry for all its likes, and a new like makes it news again.
- Whoever left is a member of no group.
- Every moment on a page is shown as the zone of the forum shows it.
- Whatever happens to a group, every account reads through exactly the groups
  it is a member of.
- Nothing is found outside the space, the sections and what is shown.
- Whoever is told of a mention is whoever is highlighted, and both may read the
  space.
- What a picture knows besides the picture does not survive an upload.
- A notification waits longer after each failure, and gives up visibly. One
  channel does not hold up the other.
- A link out of the notifications works for its own row and with its own token
  alone.

## Configuration

One TOML file describes the addresses. Unknown keys are an error,
and the error names them.

```toml
[[space]]
host  = "forum.example.org"
title = "Treff"
view  = "topics"
read  = ["Household", "Friends"]

  [[space.category]]
  slug  = "films"
  title = "Films"
  post  = ["Household", "Friends"]
  reply = ["Household", "Friends"]
```

| Variable | Meaning |
|---|---|
| `TREFF_CONFIG` | path to the file above; required |
| `TREFF_DATA_DIR` | database, keys and attachments (default `/var/lib/treff`) |
| `TREFF_LISTEN` | address and port (default `127.0.0.1:8080`) |
| `TREFF_OIDC_ISSUER`, `TREFF_OIDC_CLIENT_ID` | the provider; required |
| `TREFF_OIDC_CLIENT_SECRET_FILE` | a path, never the secret itself; required |
| `TREFF_OIDC_GROUP_CLAIM` | default `groups` |
| `TREFF_SMTP_HOST`, `_PORT`, `_FROM`, `_USERNAME`, `_PASSWORD_FILE`, `_STARTTLS` | mail, if wanted |
| `TREFF_WEBHOOK_URL`, `_TOPIC`, `_TOKEN_FILE` | a webhook, if wanted |
| `TREFF_INTERNAL_LISTEN`, `TREFF_EVENTS_TOKEN_FILE`, `TREFF_BELL_TOKEN_FILE`, `TREFF_SCIM_TOKEN_FILE` | the internal listener, if wanted |

`treff export <file>` writes a copy of the database that stands on its own. It
refuses to overwrite an existing file.
