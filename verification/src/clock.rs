//! Timestamps: the key under which a new entry is filed.

use crate::tag::Tag;
use crate::text::{decimal, decimal_text, signed_decimal, signed_decimal_text};
use vstd::prelude::*;
use vstd::string::*;

verus! {

/// One reading of the clock, as calendar date and time of day.
#[derive(Clone, Copy, Debug)]
pub struct Moment {
    pub year: i32,
    pub month: u8,
    pub day: u8,
    pub hour: u8,
    pub minute: u8,
    pub second: u8,
}

impl Moment {
    /// Whether the fields are in the ranges of a calendar and a clock.
    pub open spec fn is_valid(&self) -> bool {
        &&& 1 <= self.month <= 12
        &&& 1 <= self.day <= 31
        &&& self.hour < 24
        &&& self.minute < 60
        &&& self.second < 60
    }
}

/// A date as text: year, month and day as plain numerals, joined by hyphens.
pub open spec fn date_chars(year: int, month: nat, day: nat) -> Seq<char> {
    signed_decimal(year) + seq!['-'] + decimal(month) + seq!['-'] + decimal(day)
}

/// The seconds as text: two digits, with a leading zero below ten.
pub open spec fn second_chars(second: nat) -> Seq<char> {
    if second < 10 {
        seq!['0'] + decimal(second)
    } else {
        decimal(second)
    }
}

/// A time of day as text: hour and minute as plain numerals, the seconds
/// with two digits, joined by colons.
pub open spec fn time_chars(hour: nat, minute: nat, second: nat) -> Seq<char> {
    decimal(hour) + seq![':'] + decimal(minute) + seq![':'] + second_chars(second)
}

/// Date and time of one moment as text.
pub open spec fn moment_date(m: Moment) -> Seq<char> {
    date_chars(m.year as int, m.month as nat, m.day as nat)
}

/// Time of day of one moment as text.
pub open spec fn moment_time(m: Moment) -> Seq<char> {
    time_chars(m.hour as nat, m.minute as nat, m.second as nat)
}

/// Whether `s` is the date of some valid moment.
pub open spec fn is_date_text(s: Seq<char>) -> bool {
    exists|m: Moment| m.is_valid() && s == #[trigger] moment_date(m)
}

/// Whether `s` is the time of day of some valid moment.
pub open spec fn is_time_text(s: Seq<char>) -> bool {
    exists|m: Moment| m.is_valid() && s == #[trigger] moment_time(m)
}

/// std's `SystemTime`, a reading of the system clock. Nothing inside it is
/// read here.
#[verifier::external_type_specification]
#[verifier::external_body]
pub struct ExSystemTime(std::time::SystemTime);

/// The calendar date and time of day, in UTC, that lie `seconds` seconds
/// after the beginning of 1970, where the `time` crate can hold that moment.
pub uninterp spec fn moment_of(seconds: i64) -> Option<Moment>;

/// std's `SystemTime::now`: a reading of the system clock, which differs
/// from call to call.
#[verifier::external_body]
fn system_now() -> (at: std::time::SystemTime) {
    std::time::SystemTime::now()
}

/// std's `SystemTime::duration_since`, from `UNIX_EPOCH`: the time from the
/// beginning of 1970 to `at`, or nothing where `at` lies before it.
#[verifier::external_body]
fn since_epoch(at: &std::time::SystemTime) -> (r: Option<std::time::Duration>) {
    at.duration_since(std::time::UNIX_EPOCH).ok()
}

/// std's `Duration::as_secs`: the whole seconds of a duration.
#[verifier::external_body]
fn whole_seconds(span: &std::time::Duration) -> (r: u64) {
    span.as_secs()
}

/// `time::OffsetDateTime::from_unix_timestamp`, read through the getters of
/// the result: the moment `seconds` seconds after the beginning of 1970, in
/// UTC, or nothing where the crate cannot hold it. The call fails on such a
/// number and does not panic. Month, day, hour, minute and second of a
/// result are in the ranges that the crate keeps them in.
#[verifier::external_body]
fn moment_at(seconds: i64) -> (r: Option<Moment>)
    ensures
        r == moment_of(seconds),
        r is Some ==> r->Some_0.is_valid(),
{
    time::OffsetDateTime::from_unix_timestamp(seconds).ok().map(
        |at| Moment {
            year: at.year(),
            month: u8::from(at.month()),
            day: at.day(),
            hour: at.hour(),
            minute: at.minute(),
            second: at.second(),
        },
    )
}

/// The moment that a count of seconds since the beginning of 1970 stands
/// for, if it is one that can be held.
pub fn moment_after(seconds: u64) -> (r: Option<Moment>)
    ensures
        r == (if seconds <= i64::MAX {
            moment_of(seconds as i64)
        } else {
            None
        }),
        r is Some ==> r->Some_0.is_valid(),
{
    if seconds <= 9223372036854775807u64 {
        moment_at(seconds as i64)
    } else {
        None
    }
}

/// Reads the system clock. There is no reading where the clock stands before
/// 1970 or at a moment that cannot be held.
fn read_clock() -> (r: Option<Moment>)
    ensures
        r is Some ==> r->Some_0.is_valid(),
{
    let at = system_now();
    match since_epoch(&at) {
        Some(span) => moment_after(whole_seconds(&span)),
        None => None,
    }
}

/// Writes a date.
pub fn date_text(year: i32, month: u8, day: u8) -> (r: String)
    ensures
        r@ == date_chars(year as int, month as nat, day as nat),
{
    proof {
        reveal_strlit("-");
    }
    let mut r = signed_decimal_text(year);
    r.append("-");
    r.append(decimal_text(month as u64).as_str());
    r.append("-");
    r.append(decimal_text(day as u64).as_str());
    assert(r@ =~= date_chars(year as int, month as nat, day as nat));
    r
}

/// Writes a time of day.
pub fn time_text(hour: u8, minute: u8, second: u8) -> (r: String)
    ensures
        r@ == time_chars(hour as nat, minute as nat, second as nat),
{
    proof {
        reveal_strlit(":");
        reveal_strlit("0");
    }
    let mut r = decimal_text(hour as u64);
    r.append(":");
    r.append(decimal_text(minute as u64).as_str());
    r.append(":");
    if second < 10 {
        r.append("0");
    }
    r.append(decimal_text(second as u64).as_str());
    assert(r@ =~= time_chars(hour as nat, minute as nat, second as nat));
    r
}

/// The key of an entry filed under a tag at a time of day: the tag's prefix,
/// a plus sign, the time.
pub open spec fn tagged_key_chars(tag: Seq<char>, time: Seq<char>) -> Seq<char> {
    tag + seq!['+'] + time
}

/// Writes the key of an entry filed under `tag` at the time of day `time`.
pub fn tagged_key(tag: &Tag, time: &str) -> (r: String)
    ensures
        r@ == tagged_key_chars(tag.text(), time@),
{
    proof {
        reveal_strlit("+");
    }
    let mut r = tag.full_tag();
    r.append("+");
    r.append(time);
    assert(r@ =~= tagged_key_chars(tag.text(), time@));
    r
}

/// Whether `s` is a timestamp: the date and the time of day of valid
/// moments, joined by a plus sign.
pub open spec fn is_timestamp(s: Seq<char>) -> bool {
    exists|date: Seq<char>, time: Seq<char>|
        is_date_text(date) && is_time_text(time) && s == #[trigger] tagged_key_chars(date, time)
}

/// Whether `s` is a key under the prefix `tag`: the prefix and the time of
/// day of a valid moment, joined by a plus sign.
pub open spec fn is_key_under(s: Seq<char>, tag: Seq<char>) -> bool {
    exists|time: Seq<char>| is_time_text(time) && s == #[trigger] tagged_key_chars(tag, time)
}

/// Writes the timestamp of a date and a time of day: both joined by a plus
/// sign.
pub fn timestamp_text(date: Moment, time: Moment) -> (r: String)
    ensures
        r@ == tagged_key_chars(moment_date(date), moment_time(time)),
{
    proof {
        reveal_strlit("+");
    }
    let mut r = date_text(date.year, date.month, date.day);
    r.append("+");
    r.append(time_text(time.hour, time.minute, time.second).as_str());
    assert(r@ =~= tagged_key_chars(moment_date(date), moment_time(time)));
    r
}

/// The generator of timestamps.
pub struct Time;

impl Time {
    /// The current time of day as text, where the clock can be read.
    pub fn generate_time() -> (r: Option<String>)
        ensures
            r is Some ==> is_time_text(r->Some_0@),
    {
        match read_clock() {
            Some(now) => {
                let text = time_text(now.hour, now.minute, now.second);
                assert(text@ == moment_time(now));
                Some(text)
            },
            None => None,
        }
    }

    /// The current date as text, where the clock can be read.
    pub fn generate_date() -> (r: Option<String>)
        ensures
            r is Some ==> is_date_text(r->Some_0@),
    {
        match read_clock() {
            Some(now) => {
                let text = date_text(now.year, now.month, now.day);
                assert(text@ == moment_date(now));
                Some(text)
            },
            None => None,
        }
    }

    /// The current date and time of day, joined by a plus sign: the key of
    /// an entry filed now. Date and time come from two readings of the
    /// clock; there is no timestamp where either cannot be read.
    pub fn generate_timestamp() -> (r: Option<String>)
        ensures
            r is Some ==> is_timestamp(r->Some_0@),
    {
        let date = match read_clock() {
            Some(date) => date,
            None => {
                return None;
            },
        };
        let time = match read_clock() {
            Some(time) => time,
            None => {
                return None;
            },
        };
        let text = timestamp_text(date, time);
        assert(is_date_text(moment_date(date)));
        assert(is_time_text(moment_time(time)));
        Some(text)
    }

    /// The key under which an entry is filed now: under the tag's prefix
    /// where the tag has a field, under the current date otherwise. There is
    /// no key where the clock cannot be read.
    pub fn generate_key(tag: &Tag) -> (r: Option<String>)
        ensures
            r is Some && tag.is_given() ==> is_key_under(r->Some_0@, tag.text()),
            r is Some && !tag.is_given() ==> is_timestamp(r->Some_0@),
    {
        if tag.has_fields() {
            match Time::generate_time() {
                Some(time) => {
                    let text = tagged_key(tag, time.as_str());
                    assert(text@ == tagged_key_chars(tag.text(), time@));
                    Some(text)
                },
                None => None,
            }
        } else {
            Time::generate_timestamp()
        }
    }
}

} // verus!
