//! What time it is, where the forum stands.
//!
//! A timestamp in the database is Unix seconds and says nothing about a place.
//! The moment it is shown with an hour on it, it needs one: `09:41` is a lie
//! for everybody the offset does not fit, and the reader has no way to tell.
//!
//! The zone is the instance's and not the reader's: a forum for a closed
//! circle is read in the circle's own time.
use crate::text::{ascii_lower, text_of};
use jiff::tz::TimeZone;
use vstd::prelude::*;

verus! {

/// A time zone, with the rules the machine's database has for it.
#[verifier::external_type_specification]
#[verifier::external_body]
pub struct ExTimeZone(jiff::tz::TimeZone);

/// Why there is no such zone.
#[verifier::external_type_specification]
#[verifier::external_body]
pub struct ExJiffError(jiff::Error);

/// The moment `second` (Unix time) in the civil time `offset` seconds ahead of
/// UTC, written as `format` says. Nothing where the moment is outside the
/// calendar or the offset outside what an offset can be.
pub uninterp spec fn civil_formatted(second: i64, offset: i32, format: Seq<char>) -> Option<
    Seq<char>,
>;

/// `jiff::Timestamp::from_second`, `Offset::from_seconds`,
/// `Offset::to_datetime` and `strtime::format`, one after the other: the text
/// is a function of the three arguments alone.
#[verifier::external_body]
fn civil_text(second: i64, offset: i32, format: &str) -> (r: Option<String>)
    ensures
        text_of(r) == civil_formatted(second, offset, format@),
{
    let moment = jiff::Timestamp::from_second(second).ok()?;
    let offset = jiff::tz::Offset::from_seconds(offset).ok()?;
    jiff::fmt::strtime::format(format, offset.to_datetime(moment)).ok()
}

/// How many seconds a zone is ahead of UTC at a moment (Unix time), if the
/// moment is in the calendar.
pub uninterp spec fn zone_offset(zone: TimeZone, second: i64) -> Option<i32>;

/// `jiff::tz::TimeZone::to_offset` of `jiff::Timestamp::from_second`: a
/// function of the zone and the moment alone. Which rules a zone has was
/// decided when it was made, out of the machine's zone database.
#[verifier::external_body]
fn offset_at(zone: &TimeZone, second: i64) -> (r: Option<i32>)
    ensures
        r == zone_offset(*zone, second),
{
    jiff::Timestamp::from_second(second).ok().map(|t| zone.to_offset(t).seconds())
}

/// What `jiff::tz::TimeZone::iana_name` calls a zone, if it calls it anything.
pub uninterp spec fn zone_name(zone: TimeZone) -> Option<Seq<char>>;

/// Does a zone that is called `own` go by this name? Capitals do not matter,
/// and the one zone that is looked for as `Etc/Unknown` is called nothing.
pub open spec fn goes_by(own: Option<Seq<char>>, name: Seq<char>) -> bool {
    match own {
        Some(own) => ascii_lower(own) == ascii_lower(name),
        None => ascii_lower(name) == "etc/unknown"@,
    }
}

/// `jiff::tz::TimeZone::get`: the zone of this name in the machine's zone
/// database, looked for without regard to capitals. What comes out goes by the
/// name that was looked for. Whether there is one, and what its rules are, is
/// the machine's to say, and nothing is claimed of it.
#[verifier::external_body]
fn zone_named(name: &str) -> (r: Result<TimeZone, jiff::Error>)
    ensures
        r is Ok ==> goes_by(zone_name(r->Ok_0), name@),
{
    TimeZone::get(name)
}

/// `jiff::tz::TimeZone::system`: the machine's own zone.
#[verifier::external_body]
fn zone_of_machine() -> (r: TimeZone) {
    TimeZone::system()
}

/// A moment as `format` writes it, or a word where it cannot be written.
pub open spec fn written(second: i64, offset: Option<i32>, format: Seq<char>) -> Seq<char> {
    match offset {
        Some(offset) => match civil_formatted(second, offset, format) {
            Some(text) => text,
            None => "unknown"@,
        },
        None => "unknown"@,
    }
}

/// A timestamp as the day and the hour.
pub open spec fn stamp_text(second: i64, offset: Option<i32>) -> Seq<char> {
    written(second, offset, "%Y-%m-%d %H:%M"@)
}

/// A timestamp as the day.
pub open spec fn day_text(second: i64, offset: Option<i32>) -> Seq<char> {
    written(second, offset, "%Y-%m-%d"@)
}

fn write_at(second: i64, offset: Option<i32>, format: &str) -> (r: String)
    ensures
        r@ == written(second, offset, format@),
{
    let text = match offset {
        Some(offset) => civil_text(second, offset, format),
        None => None,
    };
    match text {
        Some(text) => text,
        None => "unknown".to_owned(),
    }
}

/// A timestamp as the day and the hour, that many seconds ahead of UTC.
pub fn stamp_at(unix_seconds: i64, offset: Option<i32>) -> (r: String)
    ensures
        r@ == stamp_text(unix_seconds, offset),
{
    write_at(unix_seconds, offset, "%Y-%m-%d %H:%M")
}

/// A timestamp as the day, that many seconds ahead of UTC.
pub fn day_at(unix_seconds: i64, offset: Option<i32>) -> (r: String)
    ensures
        r@ == day_text(unix_seconds, offset),
{
    write_at(unix_seconds, offset, "%Y-%m-%d")
}

/// A timestamp as the day and the hour, in `zone`.
///
/// A number far outside any calendar becomes a word: this runs while a page is
/// being rendered.
pub fn stamp(unix_seconds: i64, zone: &TimeZone) -> (r: String)
    ensures
        r@ == stamp_text(unix_seconds, zone_offset(*zone, unix_seconds)),
{
    let offset = offset_at(zone, unix_seconds);
    stamp_at(unix_seconds, offset)
}

/// A timestamp as the day, in `zone`.
pub fn day(unix_seconds: i64, zone: &TimeZone) -> (r: String)
    ensures
        r@ == day_text(unix_seconds, zone_offset(*zone, unix_seconds)),
{
    let offset = offset_at(zone, unix_seconds);
    day_at(unix_seconds, offset)
}

/// How far the zone is ahead of UTC at some moments.
#[derive(Debug, Clone)]
pub struct Moments {
    pub offsets: Vec<(i64, Option<i32>)>,
}

impl View for Moments {
    type V = Seq<(i64, Option<i32>)>;

    open spec fn view(&self) -> Seq<(i64, Option<i32>)> {
        self.offsets@
    }
}

/// How far the zone is ahead of UTC at this moment, as far as it was asked.
pub open spec fn offset_in(offsets: Seq<(i64, Option<i32>)>, second: i64) -> Option<i32>
    decreases offsets.len(),
{
    if offsets.len() == 0 {
        None
    } else if offsets[0].0 == second {
        offsets[0].1
    } else {
        offset_in(offsets.skip(1), second)
    }
}

/// What asking the zone about these moments gives.
pub open spec fn asked(
    zone: TimeZone,
    offsets: Seq<(i64, Option<i32>)>,
    times: Seq<i64>,
) -> bool {
    &&& offsets.len() == times.len()
    &&& forall|i: int|
        0 <= i < times.len() ==> #[trigger] offsets[i] == (times[i], zone_offset(zone, times[i]))
}

/// Is it known of each of these moments how far ahead the zone is?
pub open spec fn known(zone: TimeZone, offsets: Seq<(i64, Option<i32>)>, times: Seq<i64>) -> bool {
    forall|i: int|
        0 <= i < times.len() ==> offset_in(offsets, #[trigger] times[i]) == zone_offset(
            zone,
            times[i],
        )
}

/// A moment as the day and the hour.
pub open spec fn shown_stamp(offsets: Seq<(i64, Option<i32>)>, second: i64) -> Seq<char> {
    stamp_text(second, offset_in(offsets, second))
}

/// A moment as the day.
pub open spec fn shown_day(offsets: Seq<(i64, Option<i32>)>, second: i64) -> Seq<char> {
    day_text(second, offset_in(offsets, second))
}

impl Moments {
    /// Asks the zone about these moments.
    pub fn read(zone: &TimeZone, times: &[i64]) -> (r: Moments)
        ensures
            asked(*zone, r@, times@),
    {
        let mut offsets: Vec<(i64, Option<i32>)> = Vec::new();
        let mut i: usize = 0;
        while i < times.len()
            invariant
                i <= times@.len(),
                offsets@.len() == i,
                forall|k: int|
                    0 <= k < i ==> #[trigger] offsets@[k] == (
                        times@[k],
                        zone_offset(*zone, times@[k]),
                    ),
            decreases times@.len() - i,
        {
            offsets.push((times[i], offset_at(zone, times[i])));
            i += 1;
        }
        Moments { offsets }
    }

    fn offset(&self, second: i64) -> (r: Option<i32>)
        ensures
            r == offset_in(self@, second),
    {
        let mut i: usize = 0;
        assert(self@.skip(0) == self@);
        while i < self.offsets.len()
            invariant
                i <= self.offsets@.len(),
                offset_in(self@, second) == offset_in(self@.skip(i as int), second),
            decreases self.offsets@.len() - i,
        {
            assert(self@.skip(i as int)[0] == self@[i as int]);
            assert(self@.skip(i as int).skip(1) == self@.skip(i + 1));
            if self.offsets[i].0 == second {
                return self.offsets[i].1;
            }
            i += 1;
        }
        assert(self@.skip(i as int).len() == 0);
        None
    }

    /// A moment as the day and the hour.
    pub fn stamp(&self, second: i64) -> (r: String)
        ensures
            r@ == shown_stamp(self@, second),
    {
        stamp_at(second, self.offset(second))
    }

    /// A moment as the day.
    pub fn day(&self, second: i64) -> (r: String)
        ensures
            r@ == shown_day(self@, second),
    {
        day_at(second, self.offset(second))
    }
}

proof fn what_is_in_there_is_found(
    zone: TimeZone,
    offsets: Seq<(i64, Option<i32>)>,
    second: i64,
)
    requires
        forall|i: int|
            0 <= i < offsets.len() ==> (#[trigger] offsets[i]).1 == zone_offset(
                zone,
                offsets[i].0,
            ),
        exists|i: int| 0 <= i < offsets.len() && (#[trigger] offsets[i]).0 == second,
    ensures
        offset_in(offsets, second) == zone_offset(zone, second),
    decreases offsets.len(),
{
    if offsets[0].0 != second {
        let rest = offsets.skip(1);
        let k = choose|i: int| 0 <= i < offsets.len() && (#[trigger] offsets[i]).0 == second;
        assert(rest[k - 1] == offsets[k]);
        assert forall|i: int| 0 <= i < rest.len() implies (#[trigger] rest[i]).1 == zone_offset(
            zone,
            rest[i].0,
        ) by {
            assert(rest[i] == offsets[i + 1]);
        }
        what_is_in_there_is_found(zone, rest, second);
    }
}

/// Whatever the zone was asked about is known afterwards, and is shown as the
/// zone itself would show it.
pub proof fn what_was_asked_is_known(
    zone: TimeZone,
    offsets: Seq<(i64, Option<i32>)>,
    times: Seq<i64>,
)
    requires
        asked(zone, offsets, times),
    ensures
        known(zone, offsets, times),
        forall|i: int|
            #![trigger times[i]]
            0 <= i < times.len() ==> {
                &&& shown_stamp(offsets, times[i]) == stamp_text(
                    times[i],
                    zone_offset(zone, times[i]),
                )
                &&& shown_day(offsets, times[i]) == day_text(times[i], zone_offset(zone, times[i]))
            },
{
    assert forall|i: int| 0 <= i < times.len() implies offset_in(offsets, #[trigger] times[i])
        == zone_offset(zone, times[i]) by {
        assert(offsets[i].0 == times[i]);
        what_is_in_there_is_found(zone, offsets, times[i]);
    }
}

/// What a look into the zone database comes to: what was found, be it a zone or
/// the complaint that there is none, and the machine's own zone where nothing
/// was looked for.
pub fn zone_found(found: Option<Result<TimeZone, jiff::Error>>) -> (r: Result<
    TimeZone,
    jiff::Error,
>)
    ensures
        match found {
            Some(found) => r == found,
            None => r is Ok,
        },
{
    match found {
        Some(found) => found,
        None => Ok(zone_of_machine()),
    }
}

/// The zone a configured name stands for, or the machine's own when no name is
/// configured.
///
/// An unknown name is an error and not a fallback: UTC instead of
/// `Europe/Berlin` is not a degraded forum, it is a forum in which every
/// timestamp is quietly wrong.
pub fn resolve(name: Option<&str>) -> (r: Result<TimeZone, jiff::Error>)
    ensures
        name is None ==> r is Ok,
        name is Some && r is Ok ==> goes_by(zone_name(r->Ok_0), name->0@),
{
    match name {
        Some(name) => zone_found(Some(zone_named(name))),
        None => zone_found(None),
    }
}

} // verus!
