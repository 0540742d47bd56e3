//! Dead-letter storage for undeliverable outbound messages.
//!
//! When platform delivery fails hard, a queue saturates or a circuit breaker trips, the dropped
//! message is recorded in an append-only file partitioned by platform and UTC calendar date:
//! `<base_dir>/<platform>_<YYYY-MM-DD>.jsonl`. This module decides what a record holds and where
//! it goes; appending the serialized line is left to the caller's I/O layer.
use vstd::prelude::*;

use crate::message::{DeliverMessageRequest, MediaSource, MessageSegment, Segment};
use crate::text::{decimal, is_ascii_alnum, is_ascii_alphanumeric, push_char, push_decimal, push_padded, push_str, zero_pad};

verus! {

/// Default directory for dead-letter records.
pub const DEFAULT_DEAD_LETTER_DIR: &'static str = "./data/dead_letter";

// ---------------------------------------------------------------------------------------------
// Proleptic Gregorian calendar
// ---------------------------------------------------------------------------------------------

/// Gregorian leap year.
pub open spec fn is_leap(y: int) -> bool {
    y % 4 == 0 && (y % 100 != 0 || y % 400 == 0)
}

/// Number of days of year `y`.
pub open spec fn year_len(y: int) -> int {
    if is_leap(y) {
        366
    } else {
        365
    }
}

/// Number of days of month `m` (1 to 12) of year `y`.
pub open spec fn month_len(y: int, m: int) -> int {
    if m == 2 {
        if is_leap(y) {
            29
        } else {
            28
        }
    } else if m == 4 || m == 6 || m == 9 || m == 11 {
        30
    } else {
        31
    }
}

/// Number of leap years among the years `1..=n`.
pub open spec fn leaps_through(n: int) -> int {
    n / 4 - n / 100 + n / 400
}

/// Days from 1970-01-01 to January 1st of year `y`.
pub open spec fn days_before_year(y: int) -> int {
    365 * (y - 1970) + leaps_through(y - 1) - leaps_through(1969)
}

/// Days from January 1st of year `y` to the first day of month `m`.
pub open spec fn days_before_month(y: int, m: int) -> int
    decreases m,
{
    if m <= 1 {
        0
    } else {
        days_before_month(y, m - 1) + month_len(y, m - 1)
    }
}

/// A calendar date from 1970 on.
pub open spec fn valid_date(y: int, m: int, d: int) -> bool {
    y >= 1970 && 1 <= m <= 12 && 1 <= d <= month_len(y, m)
}

/// Days from 1970-01-01 to the given date.
pub open spec fn day_number(y: int, m: int, d: int) -> int {
    days_before_year(y) + days_before_month(y, m) + d - 1
}

/// `YYYY-MM-DD` rendering of a date.
pub open spec fn date_text(y: nat, m: nat, d: nat) -> Seq<char> {
    zero_pad(decimal(y), 4) + "-"@ + zero_pad(decimal(m), 2) + "-"@ + zero_pad(decimal(d), 2)
}

proof fn lemma_year_step(y: int)
    requires
        y >= 1970,
    ensures
        days_before_year(y + 1) == days_before_year(y) + year_len(y),
{
    assert(leaps_through(y) - leaps_through(y - 1) == if is_leap(y) { 1int } else { 0int });
}

proof fn lemma_cycle(y: int)
    requires
        y >= 1970,
    ensures
        days_before_year(y + 400) == days_before_year(y) + 146097,
{
    let x = y - 1;
    assert((x + 400) / 4 == x / 4 + 100);
    assert((x + 400) / 100 == x / 100 + 4);
    assert((x + 400) / 400 == x / 400 + 1);
}

proof fn lemma_cycles(c: nat)
    ensures
        days_before_year(1970 + 400 * (c as int)) == 146097 * c,
    decreases c,
{
    if c > 0 {
        lemma_cycles((c - 1) as nat);
        lemma_cycle(1970 + 400 * (c - 1));
    }
}

proof fn lemma_months_fill_year(y: int)
    ensures
        days_before_month(y, 12) + month_len(y, 12) == year_len(y),
{
    reveal_with_fuel(days_before_month, 12);
}

proof fn lemma_months_increase(y: int, m1: int, m2: int)
    requires
        1 <= m1 < m2 <= 13,
    ensures
        days_before_month(y, m1) + month_len(y, m1) <= days_before_month(y, m2),
    decreases m2 - m1,
{
    if m2 > m1 + 1 {
        lemma_months_increase(y, m1, m2 - 1);
    }
}

proof fn lemma_months_nonneg(y: int, m: int)
    ensures
        days_before_month(y, m) >= 0,
    decreases m,
{
    if m > 1 {
        lemma_months_nonneg(y, m - 1);
    }
}

proof fn lemma_within_year(y: int, m: int, d: int)
    requires
        valid_date(y, m, d),
    ensures
        days_before_month(y, m) + d - 1 < year_len(y),
{
    lemma_months_fill_year(y);
    if m < 12 {
        lemma_months_increase(y, m, 12);
    }
}

proof fn lemma_years_increase(y1: int, y2: int)
    requires
        1970 <= y1 < y2,
    ensures
        days_before_year(y1) + year_len(y1) <= days_before_year(y2),
    decreases y2 - y1,
{
    lemma_year_step(y1);
    if y2 > y1 + 1 {
        lemma_years_increase(y1 + 1, y2);
        lemma_year_step(y1 + 1);
    }
}

/// Day numbers identify dates: two valid dates with the same number of days since 1970-01-01
/// are the same date (so the date rendered for a timestamp is the only possible one).
pub proof fn law_day_number_injective(y1: int, m1: int, d1: int, y2: int, m2: int, d2: int)
    requires
        valid_date(y1, m1, d1),
        valid_date(y2, m2, d2),
        day_number(y1, m1, d1) == day_number(y2, m2, d2),
    ensures
        y1 == y2 && m1 == m2 && d1 == d2,
{
    lemma_within_year(y1, m1, d1);
    lemma_within_year(y2, m2, d2);
    lemma_months_nonneg(y1, m1);
    lemma_months_nonneg(y2, m2);
    if y1 < y2 {
        lemma_years_increase(y1, y2);
    } else if y2 < y1 {
        lemma_years_increase(y2, y1);
    } else if m1 < m2 {
        lemma_months_increase(y1, m1, m2);
    } else if m2 < m1 {
        lemma_months_increase(y1, m2, m1);
    }
}

fn leap(y: u64) -> (r: bool)
    ensures
        r == is_leap(y as int),
{
    y % 4 == 0 && (y % 100 != 0 || y % 400 == 0)
}

fn days_in_year(y: u64) -> (r: u64)
    ensures
        r == year_len(y as int),
{
    if leap(y) {
        366
    } else {
        365
    }
}

fn days_in_month(y: u64, m: u64) -> (r: u64)
    ensures
        r == month_len(y as int, m as int),
{
    if m == 2 {
        if leap(y) {
            29
        } else {
            28
        }
    } else if m == 4 || m == 6 || m == 9 || m == 11 {
        30
    } else {
        31
    }
}

/// The calendar date `days` days after 1970-01-01, as `(year, month, day)`.
pub fn civil_from_days(days: u64) -> (r: (u64, u64, u64))
    ensures
        valid_date(r.0 as int, r.1 as int, r.2 as int),
        day_number(r.0 as int, r.1 as int, r.2 as int) == days,
{
    let cycles = days / 146097;
    let mut rem = days % 146097;
    assert(400 * cycles <= 400 * (0xFFFF_FFFF_FFFF_FFFFu64 / 146097)) by (nonlinear_arith)
        requires
            cycles == days / 146097,
    ;
    let mut y: u64 = 1970 + 400 * cycles;
    proof {
        lemma_cycles(cycles as nat);
        assert(146097 * cycles + rem == days) by (nonlinear_arith)
            requires
                cycles == days / 146097,
                rem == days % 146097,
        ;
    }
    let ghost y0 = y;
    while rem >= days_in_year(y)
        invariant
            y >= 1970,
            y0 <= y,
            y0 == 1970 + 400 * cycles,
            cycles <= 0xFFFF_FFFF_FFFF_FFFFu64 / 146097,
            rem < 146097,
            (y - y0) * 365 + rem < 146097,
            days_before_year(y as int) + rem == days,
        decreases rem,
    {
        proof {
            lemma_year_step(y as int);
        }
        rem = rem - days_in_year(y);
        y = y + 1;
    }
    let mut m: u64 = 1;
    while rem >= days_in_month(y, m)
        invariant
            y >= 1970,
            1 <= m <= 12,
            rem < year_len(y as int) - days_before_month(y as int, m as int),
            days_before_year(y as int) + days_before_month(y as int, m as int) + rem == days,
        decreases 12 - m,
    {
        proof {
            lemma_months_fill_year(y as int);
        }
        rem = rem - days_in_month(y, m);
        m = m + 1;
    }
    (y, m, rem + 1)
}

/// Renders seconds since the Unix epoch as the UTC calendar date `YYYY-MM-DD`.
pub fn unix_to_date_string(secs: u64) -> (r: String)
    ensures
        exists|y: nat, m: nat, d: nat|
            valid_date(y as int, m as int, d as int) && day_number(y as int, m as int, d as int) == secs / 86400
                && r@ == date_text(y, m, d),
{
    let (y, m, d) = civil_from_days(secs / 86400);
    let mut s = String::new();
    push_padded(&mut s, y, 4);
    push_char(&mut s, '-');
    push_padded(&mut s, m, 2);
    push_char(&mut s, '-');
    push_padded(&mut s, d, 2);
    proof {
        reveal_strlit("-");
        assert(s@ =~= date_text(y as nat, m as nat, d as nat));
    }
    s
}

/// `THH:MM:SSZ`, the time-of-day part of an ISO 8601 timestamp for `secs` since the epoch.
pub open spec fn time_of_day_text(secs: nat) -> Seq<char> {
    let t = secs % 86400;
    "T"@ + zero_pad(decimal(t / 3600), 2) + ":"@ + zero_pad(decimal((t % 3600) / 60), 2) + ":"@
        + zero_pad(decimal(t % 60), 2) + "Z"@
}

/// Timestamp triplet for `unix_millis` milliseconds since the epoch: the milliseconds, the ISO
/// 8601 UTC timestamp (`YYYY-MM-DDTHH:MM:SSZ`) and the calendar date (`YYYY-MM-DD`).
pub fn time_triplet_at(unix_millis: u64) -> (r: (u64, String, String))
    ensures
        r.0 == unix_millis,
        exists|y: nat, m: nat, d: nat|
            valid_date(y as int, m as int, d as int) && day_number(y as int, m as int, d as int) == (unix_millis / 1000) / 86400
                && r.2@ == date_text(y, m, d),
        r.1@ == r.2@ + time_of_day_text((unix_millis / 1000) as nat),
{
    let secs = unix_millis / 1000;
    let date = unix_to_date_string(secs);
    let tod = secs % 86400;
    let mut iso = date.clone();
    push_char(&mut iso, 'T');
    push_padded(&mut iso, tod / 3600, 2);
    push_char(&mut iso, ':');
    push_padded(&mut iso, (tod % 3600) / 60, 2);
    push_char(&mut iso, ':');
    push_padded(&mut iso, tod % 60, 2);
    push_char(&mut iso, 'Z');
    proof {
        reveal_strlit("T");
        reveal_strlit(":");
        reveal_strlit("Z");
        assert(iso@ =~= date@ + time_of_day_text(secs as nat));
    }
    (unix_millis, iso, date)
}

/// Timestamp triplet for the current wall-clock time (see [`time_triplet_at`]).
pub fn current_time_triplet() -> (r: (u64, String, String))
    ensures
        exists|y: nat, m: nat, d: nat|
            valid_date(y as int, m as int, d as int) && day_number(y as int, m as int, d as int) == (r.0 / 1000) / 86400
                && r.2@ == date_text(y, m, d),
        r.1@ == r.2@ + time_of_day_text((r.0 / 1000) as nat),
{
    time_triplet_at(crate::clock::unix_millis_now())
}

// ---------------------------------------------------------------------------------------------
// Records
// ---------------------------------------------------------------------------------------------

/// `name` with every character other than an ASCII letter, digit, `-` or `_` replaced by `_`.
pub open spec fn sanitized(name: Seq<char>) -> Seq<char> {
    Seq::new(name.len(), |i: int| if is_ascii_alnum(name[i]) || name[i] == '-' || name[i] == '_' { name[i] } else { '_' })
}

/// Replaces characters that are unsafe in file names.
pub fn sanitize_filename(name: &str) -> (r: String)
    ensures
        r@ == sanitized(name@),
{
    let v = crate::text::chars_of(name);
    let mut r = String::new();
    for i in 0..v.len()
        invariant
            v@ == name@,
            r@ == sanitized(name@).take(i as int),
    {
        let c = v[i];
        if is_ascii_alphanumeric(c) || c == '-' || c == '_' {
            push_char(&mut r, c);
        } else {
            push_char(&mut r, '_');
        }
        assert(r@ =~= sanitized(name@).take(i + 1));
    }
    assert(sanitized(name@).take(v@.len() as int) =~= sanitized(name@));
    r
}

/// Identifier given to a record whose request carries no event identifier.
pub open spec fn fallback_event_id(timestamp_ms: nat, channel_id: Seq<char>) -> Seq<char> {
    "dead-letter-"@ + decimal(timestamp_ms) + "-"@ + channel_id
}

/// An undeliverable outbound message as stored in cold storage.
pub struct DeadLetterRecord {
    /// Event identifier of the message, or a generated one.
    pub event_id: String,
    /// Milliseconds since the epoch when the failure was recorded.
    pub timestamp_ms: u64,
    /// ISO 8601 UTC timestamp of the failure.
    pub iso_time: String,
    /// Target platform.
    pub platform: String,
    /// Target channel.
    pub channel_id: String,
    /// Target recipient.
    pub recipient_id: String,
    /// Reason the message was dropped.
    pub reason: String,
    /// Segments of the dropped message.
    pub segments: Vec<MessageSegment>,
}

/// Writer placing dead-letter records in per-platform, per-day files.
pub struct DeadLetterWriter {
    base_dir: String,
}

impl DeadLetterWriter {
    /// Creates a writer storing records under `base_dir`.
    pub fn new(base_dir: String) -> (w: Self)
        ensures
            w.base_dir_spec() == base_dir@,
    {
        DeadLetterWriter { base_dir }
    }

    /// The directory records are stored under.
    pub closed spec fn base_dir_spec(&self) -> Seq<char> {
        self.base_dir@
    }

    /// Returns the active base directory.
    pub fn base_dir(&self) -> (r: &str)
        ensures
            r@ == self.base_dir_spec(),
    {
        self.base_dir.as_str()
    }

    /// File receiving the records of `platform` dated `date` (`YYYY-MM-DD`).
    pub fn record_path(&self, platform: &str, date: &str) -> (r: String)
        ensures
            r@ == crate::text::joined_path(self.base_dir_spec(), sanitized(platform@) + "_"@ + date@ + ".jsonl"@),
    {
        let mut name = sanitize_filename(platform);
        push_char(&mut name, '_');
        push_str(&mut name, date);
        push_str(&mut name, ".jsonl");
        let ghost expected = sanitized(platform@) + "_"@ + date@ + ".jsonl"@;
        proof {
            reveal_strlit("_");
        }
        assert(name@ =~= expected);
        crate::text::join_path(self.base_dir.as_str(), name.as_str())
    }
}

/// What a record keeps of one message segment: its content, and of an image where its bytes
/// were to come from (inline bytes themselves stay out of the log).
pub enum SegmentRecord {
    /// A text segment.
    Text {
        /// Text content.
        content: String,
    },
    /// An image.
    Image {
        /// MIME type.
        mime_type: String,
        /// Original file name.
        filename: String,
        /// Local file the image was to be read from.
        file_path: Option<String>,
        /// Remote URL of the image.
        url: Option<String>,
        /// Whether the image carried inline bytes.
        has_bytes: bool,
    },
    /// A voice clip.
    Audio {
        /// Clip length in seconds.
        duration_seconds: u32,
    },
    /// A mention.
    Mention {
        /// Mentioned user.
        target_user_id: String,
        /// Display name of the mention.
        display_name: String,
        /// Whether everyone was mentioned.
        is_all: bool,
    },
    /// A reply.
    Reply {
        /// Message replied to.
        target_message_id: String,
        /// Quoted excerpt.
        snippet: String,
    },
    /// A platform-specific segment.
    Custom {
        /// Platform-specific type name.
        custom_type: String,
    },
    /// A segment without content.
    Unknown,
}

/// Whether `r` is the record of segment `s`.
pub open spec fn records_segment(s: MessageSegment, r: SegmentRecord) -> bool {
    match s.segment {
        Some(Segment::Text { content }) => r matches SegmentRecord::Text { content: c } && c == content,
        Some(Segment::Image { mime_type, filename, source }) => r matches SegmentRecord::Image { mime_type: m, filename: f, file_path, url, has_bytes }
            && m == mime_type && f == filename
            && file_path == (match source { Some(MediaSource::FilePath(p)) => Some(p), _ => None })
            && url == (match source { Some(MediaSource::Url(u)) => Some(u), _ => None })
            && has_bytes == (source matches Some(MediaSource::RawBytes(_))),
        Some(Segment::Audio { duration_seconds, .. }) => r matches SegmentRecord::Audio { duration_seconds: d } && d == duration_seconds,
        Some(Segment::Mention { target_user_id, display_name, is_all }) => r matches SegmentRecord::Mention { target_user_id: t, display_name: n, is_all: a }
            && t == target_user_id && n == display_name && a == is_all,
        Some(Segment::Reply { target_message_id, snippet }) => r matches SegmentRecord::Reply { target_message_id: t, snippet: sn }
            && t == target_message_id && sn == snippet,
        Some(Segment::Custom { custom_type }) => r matches SegmentRecord::Custom { custom_type: c } && c == custom_type,
        None => r is Unknown,
    }
}

/// The record of one segment.
pub fn segment_record(segment: &MessageSegment) -> (r: SegmentRecord)
    ensures
        records_segment(*segment, r),
{
    match &segment.segment {
        Some(Segment::Text { content }) => SegmentRecord::Text { content: content.clone() },
        Some(Segment::Image { mime_type, filename, source }) => {
            let file_path = match source {
                Some(MediaSource::FilePath(p)) => Some(p.clone()),
                _ => None,
            };
            let url = match source {
                Some(MediaSource::Url(u)) => Some(u.clone()),
                _ => None,
            };
            let has_bytes = match source {
                Some(MediaSource::RawBytes(_)) => true,
                _ => false,
            };
            SegmentRecord::Image { mime_type: mime_type.clone(), filename: filename.clone(), file_path, url, has_bytes }
        },
        Some(Segment::Audio { duration_seconds, .. }) => SegmentRecord::Audio { duration_seconds: *duration_seconds },
        Some(Segment::Mention { target_user_id, display_name, is_all }) => SegmentRecord::Mention {
            target_user_id: target_user_id.clone(),
            display_name: display_name.clone(),
            is_all: *is_all,
        },
        Some(Segment::Reply { target_message_id, snippet }) => SegmentRecord::Reply {
            target_message_id: target_message_id.clone(),
            snippet: snippet.clone(),
        },
        Some(Segment::Custom { custom_type }) => SegmentRecord::Custom { custom_type: custom_type.clone() },
        None => SegmentRecord::Unknown,
    }
}

/// Builds the record of a dropped delivery observed at `timestamp_ms` (ISO time `iso_time`).
pub fn dead_letter_record(request: DeliverMessageRequest, reason: &str, timestamp_ms: u64, iso_time: String) -> (r: DeadLetterRecord)
    ensures
        r.event_id@ == if request.event_id@.len() == 0 {
            fallback_event_id(timestamp_ms as nat, request.channel_id@)
        } else {
            request.event_id@
        },
        r.timestamp_ms == timestamp_ms,
        r.iso_time == iso_time,
        r.platform == request.platform,
        r.channel_id == request.channel_id,
        r.recipient_id == request.recipient_id,
        r.reason@ == reason@,
        r.segments == request.segments,
{
    let DeliverMessageRequest { event_id, platform, channel_id, recipient_id, segments } = request;
    let event_id = if event_id.as_str().is_empty() {
        let mut id = String::new();
        push_str(&mut id, "dead-letter-");
        push_decimal(&mut id, timestamp_ms);
        push_char(&mut id, '-');
        push_str(&mut id, channel_id.as_str());
        proof {
            reveal_strlit("-");
            assert(id@ =~= fallback_event_id(timestamp_ms as nat, channel_id@));
        }
        id
    } else {
        event_id
    };
    DeadLetterRecord {
        event_id,
        timestamp_ms,
        iso_time,
        platform,
        channel_id,
        recipient_id,
        reason: crate::text::owned(reason),
        segments,
    }
}

} // verus!
