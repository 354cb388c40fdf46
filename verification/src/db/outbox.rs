//! What is owed to whom, and what has already gone out.
//!
//! Rows are written together with the post they are about, and drained by a
//! background task. Two reasons, and both are the point: a reply must not be
//! lost because the mail server is down, and a request must not wait on the
//! network while somebody watches a spinner.
use crate::db::inbox::{all_but, everybody_but};
use crate::text::{chars, same, slice_string, texts};
use vstd::prelude::*;

verus! {

/// After this many failures a row is left alone. It stays in the table with
/// its last error, which is where somebody can find out why: a row that
/// vanishes takes the reason with it, and one that retries forever hides it
/// in a log nobody reads.
pub const MAX_ATTEMPTS: i64 = 8;

/// The longest wait between two tries, in seconds.
pub const LONGEST_WAIT: i64 = 3600;

/// How much of an error text is kept.
pub const ERROR_CHARS: usize = 500;

pub open spec fn wait_after(attempts: i64) -> i64 {
    if attempts == 0 {
        0
    } else if attempts == 1 {
        60
    } else if attempts == 2 {
        300
    } else if attempts == 3 {
        900
    } else {
        LONGEST_WAIT
    }
}

/// Backoff, in seconds, by attempt number. Bounded on purpose: an hour is long
/// enough that a broken mail server is not hammered, short enough that a fixed
/// one is noticed within the hour.
pub fn backoff(attempts: i64) -> (r: i64)
    ensures
        r == wait_after(attempts),
{
    if attempts == 0 {
        0
    } else if attempts == 1 {
        60
    } else if attempts == 2 {
        300
    } else if attempts == 3 {
        900
    } else {
        LONGEST_WAIT
    }
}

/// Nobody waits longer than an hour, and every failure is waited out at least
/// as long as the one before.
pub proof fn waits_grow_and_are_bounded(fewer: i64, more: i64)
    requires
        0 <= fewer <= more,
    ensures
        0 <= wait_after(fewer) <= wait_after(more) <= LONGEST_WAIT,
        fewer > 0 ==> wait_after(fewer) > 0,
{
}

#[derive(Debug, Clone)]
pub struct Owed {
    pub id: i64,
    pub subject: String,
    /// `mail` or `webhook`. A mail goes to every follower, a webhook once per
    /// post: what is behind it fans out on its own.
    pub kanal: String,
    pub topic_id: i64,
    pub post_id: i64,
    pub space: String,
    pub attempts: i64,
}

pub struct OwedView {
    pub id: i64,
    pub subject: Seq<char>,
    pub kanal: Seq<char>,
    pub topic_id: i64,
    pub post_id: i64,
    pub space: Seq<char>,
    pub attempts: i64,
}

impl View for Owed {
    type V = OwedView;

    open spec fn view(&self) -> OwedView {
        OwedView {
            id: self.id,
            subject: self.subject@,
            kanal: self.kanal@,
            topic_id: self.topic_id,
            post_id: self.post_id,
            space: self.space@,
            attempts: self.attempts,
        }
    }
}

impl Owed {
    fn copy(&self) -> (r: Owed)
        ensures
            r@ == self@,
    {
        Owed {
            id: self.id,
            subject: self.subject.clone(),
            kanal: self.kanal.clone(),
            topic_id: self.topic_id,
            post_id: self.post_id,
            space: self.space.clone(),
            attempts: self.attempts,
        }
    }
}

/// A row of the table: what is owed, and how far it has come.
#[derive(Debug)]
pub struct OutboxRow {
    pub owed: Owed,
    pub sent: bool,
    pub next_try_at: i64,
}

pub open spec fn is_due(row: OutboxRow, now: i64) -> bool {
    !row.sent && row.next_try_at <= now && row.owed.attempts < MAX_ATTEMPTS
}

/// The rows that are due, in their order.
pub open spec fn due_of(rows: Seq<OutboxRow>, now: i64) -> Seq<OwedView>
    decreases rows.len(),
{
    if rows.len() == 0 {
        Seq::empty()
    } else {
        let before = due_of(rows.drop_last(), now);
        if is_due(rows.last(), now) {
            before.push(rows.last().owed@)
        } else {
            before
        }
    }
}

pub open spec fn owed_view(owed: Seq<Owed>) -> Seq<OwedView> {
    Seq::new(owed.len(), |i: int| owed[i]@)
}

/// The rows of one channel.
pub open spec fn of_channel(owed: Seq<OwedView>, kanal: Seq<char>) -> Seq<OwedView>
    decreases owed.len(),
{
    if owed.len() == 0 {
        Seq::empty()
    } else {
        let before = of_channel(owed.drop_last(), kanal);
        if owed.last().kanal == kanal {
            before.push(owed.last())
        } else {
            before
        }
    }
}

/// The first of these, at most so many.
pub open spec fn first_of(owed: Seq<OwedView>, limit: int) -> Seq<OwedView> {
    if owed.len() <= limit {
        owed
    } else {
        owed.take(limit)
    }
}

/// What is owed and due now on one channel, oldest first, at most `limit` of
/// them. The rows come in the order in which they were written.
///
/// TWO CHANNELS AND ONE QUEUE, drained separately: a mail server that is down
/// must not hold up the webhook, and a webhook that answers with an error must
/// not hold up the mail. They share the table, the retries and the giving up,
/// and nothing else, so the limit counts the rows of the channel alone.
pub fn due(rows: &[OutboxRow], now: i64, kanal: &str, limit: usize) -> (r: Vec<Owed>)
    ensures
        owed_view(r@) == first_of(of_channel(due_of(rows@, now), kanal@), limit as int),
{
    let mut out: Vec<Owed> = Vec::new();
    let mut i: usize = 0;
    assert(owed_view(out@) == of_channel(due_of(rows@.take(0), now), kanal@));
    while i < rows.len()
        invariant
            i <= rows@.len(),
            owed_view(out@) == first_of(
                of_channel(due_of(rows@.take(i as int), now), kanal@),
                limit as int,
            ),
        decreases rows@.len() - i,
    {
        let row = &rows[i];
        let ghost known = due_of(rows@.take(i as int), now);
        let ghost all = of_channel(known, kanal@);
        let ghost before = owed_view(out@);
        assert(rows@.take(i + 1).drop_last() == rows@.take(i as int));
        assert(rows@.take(i + 1).last() == *row);
        if !row.sent && row.next_try_at <= now && row.owed.attempts < MAX_ATTEMPTS {
            assert(due_of(rows@.take(i + 1), now) == known.push(row.owed@));
            assert(known.push(row.owed@).drop_last() == known);
            if same(&row.owed.kanal, kanal) {
                if out.len() < limit {
                    assert(all.len() == before.len());
                    out.push(row.owed.copy());
                    assert(owed_view(out@) == before.push(row.owed@));
                } else {
                    assert(before.len() == limit);
                    assert(all.push(row.owed@).take(limit as int) == all.take(limit as int));
                    assert(all.len() == limit ==> all.take(limit as int) == all);
                }
            }
        }
        i += 1;
    }
    assert(rows@.take(i as int) == rows@);
    out
}

proof fn channel_of_sum(a: Seq<OwedView>, b: Seq<OwedView>, kanal: Seq<char>)
    ensures
        of_channel(a + b, kanal) == of_channel(a, kanal) + of_channel(b, kanal),
    decreases b.len(),
{
    if b.len() == 0 {
        assert(a + b == a);
        assert(of_channel(a, kanal) + of_channel(b, kanal) == of_channel(a, kanal));
    } else {
        channel_of_sum(a, b.drop_last(), kanal);
        assert((a + b).drop_last() == a + b.drop_last());
        assert((a + b).last() == b.last());
        assert(of_channel(a + b, kanal) =~= of_channel(a, kanal) + of_channel(b, kanal));
    }
}

proof fn due_of_sum(a: Seq<OutboxRow>, b: Seq<OutboxRow>, now: i64)
    ensures
        due_of(a + b, now) == due_of(a, now) + due_of(b, now),
    decreases b.len(),
{
    if b.len() == 0 {
        assert(a + b == a);
        assert(due_of(a, now) + due_of(b, now) == due_of(a, now));
    } else {
        due_of_sum(a, b.drop_last(), now);
        assert((a + b).drop_last() == a + b.drop_last());
        assert((a + b).last() == b.last());
        assert(due_of(a + b, now) =~= due_of(a, now) + due_of(b, now));
    }
}

/// One channel does not hold up the other: wherever a row of another channel
/// stands in the queue, what is due on this one is the same without it.
pub proof fn one_channel_does_not_hold_up_the_other(
    front: Seq<OutboxRow>,
    other: OutboxRow,
    back: Seq<OutboxRow>,
    now: i64,
    kanal: Seq<char>,
)
    requires
        other.owed@.kanal != kanal,
    ensures
        of_channel(due_of(front.push(other) + back, now), kanal) == of_channel(
            due_of(front + back, now),
            kanal,
        ),
{
    due_of_sum(front.push(other), back, now);
    due_of_sum(front, back, now);
    assert(front.push(other).drop_last() == front);
    let before = due_of(front, now);
    channel_of_sum(due_of(front.push(other), now), due_of(back, now), kanal);
    channel_of_sum(before, due_of(back, now), kanal);
    if is_due(other, now) {
        assert(before.push(other.owed@).drop_last() == before);
    }
}

/// What a row says after a failed try.
#[derive(Debug)]
pub struct Failure {
    pub attempts: i64,
    pub next_try_at: i64,
    pub last_error: String,
}

/// Records a failure and when to try again.
///
/// The error text is stored TRUNCATED: it comes from another server, it ends
/// up in a table somebody reads, and a server that answers with a kilobyte of
/// prose should not be able to fill this one.
pub fn mark_failed(attempts: i64, now: i64, error: &str) -> (r: Failure)
    requires
        attempts < i64::MAX,
        now <= i64::MAX - LONGEST_WAIT,
    ensures
        r.attempts == attempts + 1,
        r.next_try_at == now + wait_after(r.attempts),
        r.last_error@ == if error@.len() <= ERROR_CHARS {
            error@
        } else {
            error@.take(ERROR_CHARS as int)
        },
{
    let text = chars(error);
    let last_error = if text.len() <= ERROR_CHARS {
        assert(error@.subrange(0, error@.len() as int) == error@);
        slice_string(&text, 0, text.len())
    } else {
        assert(error@.subrange(0, ERROR_CHARS as int) == error@.take(ERROR_CHARS as int));
        slice_string(&text, 0, ERROR_CHARS)
    };
    Failure { attempts: attempts + 1, next_try_at: now + backoff(attempts + 1), last_error }
}

/// Is this row left alone from now on? It stays, with its reason.
pub open spec fn left_alone(row: OutboxRow) -> bool {
    !row.sent && row.owed.attempts >= MAX_ATTEMPTS
}

pub open spec fn left_alone_among(rows: Seq<OutboxRow>) -> nat
    decreases rows.len(),
{
    if rows.len() == 0 {
        0
    } else {
        left_alone_among(rows.drop_last()) + if left_alone(rows.last()) {
            1nat
        } else {
            0nat
        }
    }
}

/// How many rows nobody will try again, for a status page: giving up is a
/// state and not a disappearance.
pub fn given_up(rows: &[OutboxRow]) -> (r: usize)
    ensures
        r == left_alone_among(rows@),
{
    let mut count: usize = 0;
    let mut i: usize = 0;
    while i < rows.len()
        invariant
            i <= rows@.len(),
            count <= i,
            count == left_alone_among(rows@.take(i as int)),
        decreases rows@.len() - i,
    {
        assert(rows@.take(i + 1).drop_last() == rows@.take(i as int));
        assert(rows@.take(i + 1).last() == rows@[i as int]);
        if !rows[i].sent && rows[i].owed.attempts >= MAX_ATTEMPTS {
            count += 1;
        }
        i += 1;
    }
    assert(rows@.take(i as int) == rows@);
    count
}

/// A row that failed is not due at once, and one that failed often enough is
/// never due again: it is counted as given up instead.
pub proof fn a_failure_waits_and_then_gives_up(row: OutboxRow, failed: OutboxRow, now: i64)
    requires
        row.owed.attempts >= 0,
        now <= i64::MAX - LONGEST_WAIT,
        is_due(row, now),
        failed.owed.attempts == row.owed.attempts + 1,
        failed.next_try_at == now + wait_after(failed.owed.attempts),
        !failed.sent,
    ensures
        !is_due(failed, now),
        failed.owed.attempts == MAX_ATTEMPTS ==> left_alone(failed),
        failed.owed.attempts < MAX_ATTEMPTS ==> is_due(failed, failed.next_try_at),
{
}

/// What went out is not owed again, whenever that is asked.
pub proof fn what_went_out_is_not_owed_again(row: OutboxRow, now: i64)
    requires
        row.sent,
    ensures
        !is_due(row, now),
        !left_alone(row),
{
}

/// A row that is written with a post.
#[derive(Debug)]
pub struct Queued {
    pub subject: String,
    pub kanal: String,
    pub reason: String,
}

pub struct QueuedView {
    pub subject: Seq<char>,
    pub kanal: Seq<char>,
    pub reason: Seq<char>,
}

impl View for Queued {
    type V = QueuedView;

    open spec fn view(&self) -> QueuedView {
        QueuedView { subject: self.subject@, kanal: self.kanal@, reason: self.reason@ }
    }
}

pub open spec fn queued_view(queued: Seq<Queued>) -> Seq<QueuedView> {
    Seq::new(queued.len(), |i: int| queued[i]@)
}

/// One mail for each of these people.
pub open spec fn mails(subjects: Seq<Seq<char>>, reason: Seq<char>) -> Seq<QueuedView> {
    Seq::new(
        subjects.len(),
        |i: int| QueuedView { subject: subjects[i], kanal: "mail"@, reason },
    )
}

/// The one row for the webhook.
pub open spec fn webhook_row(writer: Seq<char>) -> QueuedView {
    QueuedView { subject: writer, kanal: "webhook"@, reason: "reply"@ }
}

fn queue_mails(subjects: &[String], reason: &str) -> (r: Vec<Queued>)
    ensures
        queued_view(r@) == mails(texts(subjects@), reason@),
{
    let mut out: Vec<Queued> = Vec::new();
    let mut i: usize = 0;
    while i < subjects.len()
        invariant
            i <= subjects@.len(),
            out@.len() == i,
            forall|k: int|
                0 <= k < i ==> (#[trigger] out@[k])@ == (QueuedView {
                    subject: subjects@[k]@,
                    kanal: "mail"@,
                    reason: reason@,
                }),
        decreases subjects@.len() - i,
    {
        out.push(
            Queued {
                subject: subjects[i].clone(),
                kanal: "mail".to_owned(),
                reason: reason.to_owned(),
            },
        );
        i += 1;
    }
    assert(queued_view(out@) =~= mails(texts(subjects@), reason@));
    out
}

/// A mail for each of the people a mention has just told, as far as they want
/// one. Its reason is what the link in it turns off.
pub fn queue_mentions(told: &[String]) -> (r: Vec<Queued>)
    ensures
        queued_view(r@) == mails(texts(told@), "mention"@),
{
    queue_mails(told, "mention")
}

/// The one row that tells the operator of a post.
///
/// EXACTLY ONE WEBHOOK ROW, however many people follow, and whether or not a
/// webhook is set up at all: this layer does not know the configuration, and
/// it should not. Where there is none, the sender ticks the row off as nothing
/// to send, just as for an account without an address.
pub fn queue_webhook(writer: &str) -> (r: Queued)
    ensures
        r@ == webhook_row(writer@),
{
    Queued {
        subject: writer.to_owned(),
        kanal: "webhook".to_owned(),
        reason: "reply".to_owned(),
    }
}

/// What a reply owes: one mail per follower but the writer, and one webhook.
pub open spec fn owed_for_reply(followers: Seq<Seq<char>>, writer: Seq<char>) -> Seq<QueuedView> {
    mails(all_but(followers, writer), "reply"@).push(webhook_row(writer))
}

/// Queues one notification per follower, the writer excepted, and the one for
/// the webhook.
pub fn queue_for_followers(followers: &[String], writer: &str) -> (r: Vec<Queued>)
    ensures
        queued_view(r@) == owed_for_reply(texts(followers@), writer@),
{
    let others = everybody_but(followers, writer);
    let mut out = queue_mails(&others, "reply");
    let ghost before = queued_view(out@);
    out.push(queue_webhook(writer));
    assert(queued_view(out@) == before.push(webhook_row(writer@)));
    out
}

/// The rows for mail are for followers, and never for the writer; exactly one
/// row, the last, is for the webhook.
pub proof fn a_reply_owes_every_other_follower(
    followers: Seq<Seq<char>>,
    writer: Seq<char>,
    i: int,
)
    requires
        0 <= i < owed_for_reply(followers, writer).len(),
    ensures
        ({
            let rows = owed_for_reply(followers, writer);
            &&& rows[i].kanal == "webhook"@ <==> i == rows.len() - 1
            &&& i < rows.len() - 1 ==> rows[i].kanal == "mail"@ && rows[i].subject != writer
                && followers.contains(rows[i].subject)
        }),
{
    reveal_strlit("mail");
    reveal_strlit("webhook");
    let rows = owed_for_reply(followers, writer);
    crate::db::inbox::all_but_one(followers, writer);
    if i < rows.len() - 1 {
        let rest = all_but(followers, writer);
        assert(rest[i] == rows[i].subject);
        assert(rest.contains(rows[i].subject));
        assert("mail"@.len() != "webhook"@.len());
    }
}

/// Does the link in this notification turn off mentions rather than one
/// topic? A row that is gone asks the topic question.
pub fn about_mention(reason: Option<&str>) -> (r: bool)
    ensures
        r == (reason is Some && reason->0@ == "mention"@),
{
    match reason {
        Some(reason) => same(reason, "mention"),
        None => false,
    }
}

} // verus!
