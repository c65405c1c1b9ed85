//! The folder index: rows for indexed files and the indexing schedule.
use vstd::prelude::*;
use chrono::Datelike;
use chrono::Timelike;
use crate::text::{
    replace_all, replace_str, trim_start_char, trim_start_matches_char, split_char,
    trim, trim_bounds, chars_of, parse_u32, parse_u32_text,
};

verus! {

/// One row of the `indexed_files` table.
#[derive(Debug, Clone)]
pub struct IndexedFile {
    pub id: i32,
    pub folder_id: String,
    pub path: String,
    pub name: String,
    pub is_file: bool,
    pub parent_path: String,
    pub last_modified: i64,
}

/// A path relative to the indexed folder: every occurrence of `base`
/// removed, then the leading `/` characters.
pub open spec fn relative_to(path: Seq<char>, base: Seq<char>) -> Seq<char> {
    trim_start_char(replace_all(path, base, Seq::empty()), '/')
}

/// See `relative_to`.
pub fn relative_path(path: &str, base: &str) -> (r: String)
    ensures
        r@ == relative_to(path@, base@),
{
    proof {
        reveal_strlit("");
        assert(""@ =~= Seq::<char>::empty());
    }
    let cut = replace_str(path, base, "");
    trim_start_matches_char(cut.as_str(), '/')
}

/// The row for an entry met while indexing `folder_id` under `base`: its
/// path and its parent's path relative to `base` (an entry without a parent
/// gets an empty parent path), its name (`Unknown` when it has none), and
/// the id left to the database.
pub fn index_record(folder_id: &str, full_path: &str, parent: Option<String>, name: Option<String>, is_file: bool, last_modified: i64, base: &str) -> (f: IndexedFile)
    ensures
        f.id == 0,
        f.folder_id@ == folder_id@,
        f.path@ == relative_to(full_path@, base@),
        f.parent_path@ == (match parent {
            Some(p) => relative_to(p@, base@),
            None => Seq::<char>::empty(),
        }),
        f.name@ == (match name {
            Some(n) => n@,
            None => "Unknown"@,
        }),
        f.is_file == is_file,
        f.last_modified == last_modified,
{
    let parent_path = match parent {
        Some(p) => relative_path(p.as_str(), base),
        None => String::new(),
    };
    let name = match name {
        Some(n) => n,
        None => String::from_str("Unknown"),
    };
    IndexedFile {
        id: 0,
        folder_id: String::from_str(folder_id),
        path: relative_path(full_path, base),
        name,
        is_file,
        parent_path,
        last_modified,
    }
}

/// The numbers among the pieces, each trimmed and read as `u32::from_str`
/// does; pieces that do not read as a number are left out.
pub open spec fn parsed_numbers(parts: Seq<Seq<char>>) -> Seq<u32>
    decreases parts.len(),
{
    if parts.len() == 0 {
        Seq::empty()
    } else {
        parsed_numbers(parts.drop_last()) + match parse_u32(trim(parts.last())) {
            Some(v) => seq![v],
            None => Seq::empty(),
        }
    }
}

/// The week days of a schedule: the comma-separated numbers of `s`.
pub open spec fn schedule_days(s: Seq<char>) -> Seq<u32> {
    parsed_numbers(split_char(s, ','))
}

proof fn lemma_parsed_numbers_push(parts: Seq<Seq<char>>, p: Seq<char>)
    ensures
        parsed_numbers(parts.push(p)) == parsed_numbers(parts) + match parse_u32(trim(p)) {
            Some(v) => seq![v],
            None => Seq::empty(),
        },
{
    assert(parts.push(p).drop_last() =~= parts);
}

/// See `schedule_days`.
pub fn parse_schedule_days(s: &str) -> (r: Vec<u32>)
    ensures
        r@ == schedule_days(s@),
{
    let v = chars_of(s);
    let n = v.len();
    let mut out: Vec<u32> = Vec::new();
    let mut seg: usize = 0;
    let mut i: usize = 0;
    let ghost mut done: Seq<Seq<char>> = Seq::empty();
    assert(s@.subrange(0, 0) =~= Seq::<char>::empty());
    while i < n
        invariant
            v@ == s@,
            n == v.len(),
            seg <= i <= n,
            split_char(s@.subrange(0, i as int), ',') == done.push(s@.subrange(seg as int, i as int)),
            out@ == parsed_numbers(done),
        decreases n - i,
    {
        let ghost pre = s@.subrange(0, i as int);
        assert(s@.subrange(0, i + 1).drop_last() =~= pre);
        assert(s@.subrange(0, i + 1).last() == v@[i as int]);
        if v[i] == ',' {
            let (a, b) = trim_bounds(&v, seg, i);
            let piece = s.substring_char(a, b);
            match parse_u32_text(piece) {
                Some(x) => out.push(x),
                None => {},
            }
            proof {
                lemma_parsed_numbers_push(done, s@.subrange(seg as int, i as int));
                done = done.push(s@.subrange(seg as int, i as int));
                assert(s@.subrange(i + 1, i + 1) =~= Seq::<char>::empty());
            }
            i = i + 1;
            seg = i;
        } else {
            proof {
                assert(s@.subrange(seg as int, i as int).push(v@[i as int]) =~= s@.subrange(
                    seg as int,
                    i + 1,
                ));
                let prev = done.push(s@.subrange(seg as int, i as int));
                assert(prev.update(prev.len() - 1, prev.last().push(v@[i as int])) =~= done.push(
                    s@.subrange(seg as int, i + 1),
                ));
            }
            i = i + 1;
        }
    }
    let (a, b) = trim_bounds(&v, seg, n);
    let piece = s.substring_char(a, b);
    match parse_u32_text(piece) {
        Some(x) => out.push(x),
        None => {},
    }
    proof {
        assert(s@.subrange(0, n as int) =~= s@);
        lemma_parsed_numbers_push(done, s@.subrange(seg as int, n as int));
    }
    out
}

/// A time of day as chrono keeps it: seconds since midnight and a fraction
/// in nanoseconds, which reaches into a second second only during a leap
/// second (at a minute's 59th second).
#[derive(Debug, Clone, Copy)]
pub struct TimeOfDay {
    pub seconds_from_midnight: u32,
    pub nanosecond: u32,
}

/// The values that chrono accepts for a time of day.
pub open spec fn valid_time(t: TimeOfDay) -> bool {
    &&& t.seconds_from_midnight < 86400
    &&& t.nanosecond < 2_000_000_000
    &&& (t.nanosecond >= 1_000_000_000 ==> t.seconds_from_midnight % 60 == 59)
}

/// The local time of day and week day at some moment.
#[derive(Debug, Clone, Copy)]
pub struct ClockReading {
    pub time: TimeOfDay,
    /// 0 for Sunday up to 6 for Saturday.
    pub weekday_from_sunday: u32,
}

/// The time of day that `chrono::NaiveTime::parse_from_str` reads from `s`
/// with the format `fmt`, if it reads one.
pub uninterp spec fn chrono_parsed_time(s: Seq<char>, fmt: Seq<char>) -> Option<TimeOfDay>;

/// The whole seconds from `then` to `now`, rounded toward zero, as chrono's
/// `(now - then).num_seconds()` for two `NaiveTime`s counts them: a leap second (a fraction of a
/// second or more) on the earlier of two different seconds counts as one
/// more second between them.
pub open spec fn whole_seconds(now: TimeOfDay, then: TimeOfDay) -> int {
    let adjust: int = if now.seconds_from_midnight > then.seconds_from_midnight && then.nanosecond
        >= 1_000_000_000 {
        1
    } else if now.seconds_from_midnight < then.seconds_from_midnight && now.nanosecond >= 1_000_000_000 {
        -1
    } else {
        0
    };
    let frac: int = now.nanosecond - then.nanosecond;
    let secs: int = now.seconds_from_midnight - then.seconds_from_midnight + adjust + frac / 1_000_000_000;
    let nanos: int = frac % 1_000_000_000;
    if secs < 0 && nanos > 0 {
        secs + 1
    } else {
        secs
    }
}

/// Calls `chrono::NaiveTime::parse_from_str`. Claimed: the result is the one
/// named `chrono_parsed_time`, and a time it gives is one chrono accepts.
#[verifier::external_body]
fn parse_time_of_day(s: &str, fmt: &str) -> (r: Option<TimeOfDay>)
    ensures
        r == chrono_parsed_time(s@, fmt@),
        r matches Some(t) ==> valid_time(t),
{
    match chrono::NaiveTime::parse_from_str(s, fmt) {
        Ok(t) => Some(TimeOfDay { seconds_from_midnight: t.num_seconds_from_midnight(), nanosecond: t.nanosecond() }),
        Err(_) => None,
    }
}

/// Calls `chrono::Local::now`. Claimed: a time of day that chrono accepts
/// and a week day from 0 to 6; which moment it is is left open.
#[verifier::external_body]
fn local_clock() -> (c: ClockReading)
    ensures
        valid_time(c.time),
        c.weekday_from_sunday < 7,
{
    let now = chrono::Local::now();
    ClockReading {
        time: TimeOfDay { seconds_from_midnight: now.num_seconds_from_midnight(), nanosecond: now.nanosecond() },
        weekday_from_sunday: now.weekday().num_days_from_sunday(),
    }
}

/// The whole seconds from `then` to `now`: see `whole_seconds`.
fn whole_seconds_between(now: TimeOfDay, then: TimeOfDay) -> (d: i64)
    requires
        valid_time(now),
        valid_time(then),
    ensures
        d == whole_seconds(now, then),
{
    let mut secs: i64 = now.seconds_from_midnight as i64 - then.seconds_from_midnight as i64;
    if now.seconds_from_midnight > then.seconds_from_midnight && then.nanosecond >= 1_000_000_000 {
        secs = secs + 1;
    } else if now.seconds_from_midnight < then.seconds_from_midnight && now.nanosecond >= 1_000_000_000 {
        secs = secs - 1;
    }
    let frac: i64 = now.nanosecond as i64 - then.nanosecond as i64;
    let (carry, nanos): (i64, i64) = if frac >= 1_000_000_000 {
        (1, frac - 1_000_000_000)
    } else if frac >= 0 {
        (0, frac)
    } else if frac >= -1_000_000_000 {
        (-1, frac + 1_000_000_000)
    } else {
        (-2, frac + 2_000_000_000)
    };
    assert(frac as int / 1_000_000_000 == carry as int && frac as int % 1_000_000_000 == nanos as int) by (nonlinear_arith)
        requires
            frac == carry * 1_000_000_000 + nanos,
            0 <= nanos < 1_000_000_000,
    ;
    let total = secs + carry;
    if total < 0 && nanos > 0 {
        total + 1
    } else {
        total
    }
}

/// Whether a schedule is due: `days` is not empty and holds `weekday`, and
/// the scheduled time is less than a minute away from now (`delta_seconds`
/// whole seconds past it, or before it when negative).
pub open spec fn schedule_is_due(days: Seq<u32>, weekday: u32, delta_seconds: int) -> bool {
    days.len() > 0 && days.contains(weekday) && -60 < delta_seconds < 60
}

/// See `schedule_is_due`.
pub fn within_schedule(days: &Vec<u32>, weekday: u32, delta_seconds: i64) -> (r: bool)
    ensures
        r == schedule_is_due(days@, weekday, delta_seconds as int),
{
    if days.len() == 0 {
        return false;
    }
    let mut found = false;
    let mut i: usize = 0;
    while i < days.len()
        invariant
            i <= days@.len(),
            found == exists|j: int| 0 <= j < i && days@[j] == weekday,
        decreases days.len() - i,
    {
        if days[i] == weekday {
            found = true;
        }
        i = i + 1;
    }
    found && -60 < delta_seconds && delta_seconds < 60
}

/// The scheduled time of day: the `index-schedule-time` setting, midnight
/// when it is unset.
pub open spec fn schedule_time_text(setting: Option<String>) -> Seq<char> {
    match setting {
        Some(s) => s@,
        None => "00:00"@,
    }
}

/// The scheduled week days: the `index-schedule-days` setting, every day
/// when it is unset.
pub open spec fn schedule_days_text(setting: Option<String>) -> Seq<char> {
    match setting {
        Some(s) => s@,
        None => "0,1,2,3,4,5,6"@,
    }
}

/// Whether the schedule with time text `time_text` and week-day text
/// `days_text` is due at the clock reading `clock`: the time reads as
/// `%H:%M`, some week day reads as a number, the reading's day is one of
/// them, and its time is less than a minute away from the scheduled time.
pub open spec fn index_due(time_text: Seq<char>, days_text: Seq<char>, clock: ClockReading) -> bool {
    match chrono_parsed_time(time_text, "%H:%M"@) {
        None => false,
        Some(at) => schedule_is_due(
            schedule_days(days_text),
            clock.weekday_from_sunday,
            whole_seconds(clock.time, at),
        ),
    }
}

/// See `index_due`.
pub fn index_due_at(time_text: &str, days_text: &str, clock: ClockReading) -> (r: bool)
    requires
        valid_time(clock.time),
    ensures
        r == index_due(time_text@, days_text@, clock),
{
    let at = match parse_time_of_day(time_text, "%H:%M") {
        Some(t) => t,
        None => {
            return false;
        },
    };
    let days = parse_schedule_days(days_text);
    if days.len() == 0 {
        return false;
    }
    let delta = whole_seconds_between(clock.time, at);
    within_schedule(&days, clock.weekday_from_sunday, delta)
}

/// Whether scheduled indexing should run now, given the two schedule
/// settings: `index_due` for their texts (midnight and every day when
/// unset) at the local clock's reading, whichever moment that is. In
/// particular it never runs when the time does not read as `%H:%M` or no
/// week day reads as a number.
pub fn should_index_now(time_setting: Option<String>, days_setting: Option<String>) -> (r: bool)
    ensures
        exists|c: ClockReading|
            valid_time(c.time) && c.weekday_from_sunday < 7 && r == #[trigger] index_due(
                schedule_time_text(time_setting),
                schedule_days_text(days_setting),
                c,
            ),
        chrono_parsed_time(schedule_time_text(time_setting), "%H:%M"@) is None ==> !r,
        schedule_days(schedule_days_text(days_setting)).len() == 0 ==> !r,
{
    let time_text = match time_setting {
        Some(s) => s,
        None => String::from_str("00:00"),
    };
    let days_text = match days_setting {
        Some(s) => s,
        None => String::from_str("0,1,2,3,4,5,6"),
    };
    assert(time_text@ == schedule_time_text(time_setting));
    assert(days_text@ == schedule_days_text(days_setting));
    let clock = local_clock();
    let r = index_due_at(time_text.as_str(), days_text.as_str(), clock);
    assert(valid_time(clock.time) && clock.weekday_from_sunday < 7 && r == index_due(
        schedule_time_text(time_setting),
        schedule_days_text(days_setting),
        clock,
    ));
    r
}

} // verus!
