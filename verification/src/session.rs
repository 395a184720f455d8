//! Names of a take's files: the movie in the output folder and the hidden
//! session folder that holds the recoverable fragments until it is saved.
use crate::model::Format;
use crate::text::{padded, push_char, push_padded};
use chrono::{Datelike, Timelike};
use vstd::prelude::*;
use vstd::string::{StrSliceExecFns, StringExecFns};

verus! {

/// A lowercase hexadecimal digit.
pub open spec fn is_lower_hex(c: char) -> bool {
    ('0' <= c && c <= '9') || ('a' <= c && c <= 'f')
}

/// A session identifier: a UUID in its simple form, 32 lowercase hexadecimal digits.
pub open spec fn is_session_id(id: Seq<char>) -> bool {
    id.len() == 32 && forall|i: int| 0 <= i < 32 ==> is_lower_hex(#[trigger] id[i])
}

/// `uuid::Uuid::new_v4().simple().to_string()`: a random version-4 UUID in
/// its simple form, which uuid writes as 32 lowercase hexadecimal digits.
/// The value itself is random; uuid panics if the system's random source fails.
#[verifier::external_body]
fn random_session_id() -> (r: String)
    ensures
        is_session_id(r@),
{
    uuid::Uuid::new_v4().simple().to_string()
}

/// A reading of the local clock, in the parts a calendar shows.
#[derive(Debug, Clone, Copy, PartialEq, Eq, Structural)]
pub struct LocalTime {
    pub year: i32,
    pub month: u32,
    pub day: u32,
    pub hour: u32,
    pub minute: u32,
    pub second: u32,
    /// Nanoseconds since the whole second; 1e9 and above mark a leap second.
    pub nanosecond: u32,
}

/// The ranges chrono documents for each part of a local date and time.
pub open spec fn local_time_ok(t: LocalTime) -> bool {
    &&& 1 <= t.month <= 12
    &&& 1 <= t.day <= 31
    &&& t.hour < 24
    &&& t.minute < 60
    &&& t.second < 60
    &&& t.nanosecond < 2_000_000_000
}

/// `chrono::Local::now()`, read through chrono's `Datelike` and `Timelike`
/// accessors. The reading depends on the clock and the time zone; only the
/// ranges chrono documents for each part are claimed.
#[verifier::external_body]
fn local_time() -> (r: LocalTime)
    ensures
        local_time_ok(r),
{
    let now = chrono::Local::now();
    LocalTime {
        year: now.year(),
        month: now.month(),
        day: now.day(),
        hour: now.hour(),
        minute: now.minute(),
        second: now.second(),
        nanosecond: now.nanosecond(),
    }
}

/// The year as `%Y` writes it: four digits for 0 to 9999, otherwise a sign
/// and at least four digits.
pub open spec fn year_text(year: i32) -> Seq<char> {
    if 0 <= year < 10000 {
        padded(year as nat, 4)
    } else if year < 0 {
        seq!['-'] + padded((-year) as nat, 4)
    } else {
        seq!['+'] + padded(year as nat, 4)
    }
}

/// The local time as `%Y-%m-%d %H.%M.%S`; a leap second shows as 60.
pub open spec fn timestamp_text(t: LocalTime) -> Seq<char> {
    year_text(t.year) + seq!['-'] + padded(t.month as nat, 2) + seq!['-'] + padded(t.day as nat, 2)
        + seq![' '] + padded(t.hour as nat, 2) + seq!['.'] + padded(t.minute as nat, 2) + seq!['.']
        + padded((t.second + t.nanosecond / 1_000_000_000) as nat, 2)
}

/// Writes the local time as `%Y-%m-%d %H.%M.%S`.
pub fn timestamp(t: LocalTime) -> (r: String)
    requires
        local_time_ok(t),
    ensures
        r@ == timestamp_text(t),
{
    let mut s = String::new();
    if 0 <= t.year && t.year < 10000 {
        push_padded(&mut s, t.year as u64, 4);
    } else if t.year < 0 {
        push_char(&mut s, '-');
        push_padded(&mut s, (-(t.year as i64)) as u64, 4);
    } else {
        push_char(&mut s, '+');
        push_padded(&mut s, t.year as u64, 4);
    }
    let ghost year = s@;
    push_char(&mut s, '-');
    push_padded(&mut s, t.month as u64, 2);
    push_char(&mut s, '-');
    push_padded(&mut s, t.day as u64, 2);
    push_char(&mut s, ' ');
    push_padded(&mut s, t.hour as u64, 2);
    push_char(&mut s, '.');
    push_padded(&mut s, t.minute as u64, 2);
    push_char(&mut s, '.');
    push_padded(&mut s, (t.second + t.nanosecond / 1_000_000_000) as u64, 2);
    proof {
        assert(year =~= year_text(t.year));
        assert(s@ =~= timestamp_text(t));
    }
    s
}

/// The movie's file name: `Loomik <timestamp>-<first six id digits>.<extension>`.
pub open spec fn movie_name(timestamp: Seq<char>, id: Seq<char>, format: Format) -> Seq<char> {
    "Loomik "@ + timestamp + "-"@ + id.subrange(0, 6) + "."@ + format.spec_extension()
}

/// The hidden session folder's name: `.loomik-<id>`.
pub open spec fn session_folder_name(id: Seq<char>) -> Seq<char> {
    ".loomik-"@ + id
}

/// File names of one take.
#[derive(Debug, Clone)]
pub struct SessionNames {
    /// The finished movie, in the output folder.
    pub movie: String,
    /// The session folder, in the output folder.
    pub folder: String,
}

/// Names the take recorded at `timestamp` with identifier `id`.
pub fn session_names(timestamp: &str, id: &str, format: Format) -> (r: SessionNames)
    requires
        is_session_id(id@),
    ensures
        r.movie@ == movie_name(timestamp@, id@, format),
        r.folder@ == session_folder_name(id@),
{
    let mut movie = String::from_str("Loomik ");
    movie.append(timestamp);
    movie.append("-");
    movie.append(id.substring_char(0, 6));
    movie.append(".");
    movie.append(format.extension());
    let mut folder = String::from_str(".loomik-");
    folder.append(id);
    SessionNames { movie, folder }
}

/// Names a new take: a fresh random identifier and the local time.
pub fn new_session_names(format: Format) -> (r: SessionNames)
    ensures
        exists|t: LocalTime, id: Seq<char>|
            {
                &&& local_time_ok(t)
                &&& is_session_id(id)
                &&& r.movie@ == movie_name(timestamp_text(t), id, format)
                &&& r.folder@ == session_folder_name(id)
            },
{
    let id = random_session_id();
    let time = local_time();
    let text = timestamp(time);
    let r = session_names(text.as_str(), id.as_str(), format);
    assert(local_time_ok(time) && is_session_id(id@) && r.movie@ == movie_name(
        timestamp_text(time),
        id@,
        format,
    ) && r.folder@ == session_folder_name(id@));
    r
}

} // verus!
