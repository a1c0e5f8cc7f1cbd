//! Day-bucketing: maps a file's modification instant and a configurable
//! day-boundary time to the `YYYY-MM-DD` folder name of its logical day.
//!
//! A modification time whose local time of day lies strictly before the
//! boundary is bucketed under the previous calendar day; any other time is
//! bucketed under its own calendar day. The boundary string is parsed
//! defensively: a missing or malformed field falls back to hour 12, minute 0.

use vstd::prelude::*;
use vstd::string::StrSliceExecFns;
use vstd::string::StringExecFns;
use chrono::Datelike;
use chrono::TimeZone;
use chrono::Timelike;

verus! {

/// Why a modification instant could not be bucketed. These are
/// data-integrity failures of the instant itself; a malformed boundary
/// string is never an error.
#[derive(Clone, Copy, Debug, PartialEq, Eq, Structural)]
pub enum ClassifyError {
    /// The epoch-second count does not fit the signed 64-bit range.
    SecondsOutOfRange,
    /// No single local civil time exists for the instant.
    LocalTimeOutOfRange,
    /// The logical day's year has no four-digit form.
    DateOutOfRange,
}

/// A local civil date-time, already resolved to plain calendar fields.
#[derive(Clone, Copy, Debug, PartialEq, Eq, Structural)]
pub struct CivilDateTime {
    pub year: i32,
    pub month: u8,
    pub day: u8,
    pub hour: u8,
    pub minute: u8,
}

pub open spec fn is_leap_year(y: int) -> bool {
    (y % 4 == 0 && y % 100 != 0) || y % 400 == 0
}

pub open spec fn days_in_month(y: int, m: int) -> int {
    if m == 2 {
        if is_leap_year(y) {
            29
        } else {
            28
        }
    } else if m == 4 || m == 6 || m == 9 || m == 11 {
        30
    } else {
        31
    }
}

impl CivilDateTime {
    /// A calendar-valid date with an in-range time of day, as the local-time
    /// resolver produces it.
    pub open spec fn wf(self) -> bool {
        &&& -400000 < self.year < 400000
        &&& 1 <= self.month <= 12
        &&& 1 <= self.day <= days_in_month(self.year as int, self.month as int)
        &&& self.hour <= 23
        &&& self.minute <= 59
    }
}

/// The calendar day immediately before `(y, m, d)`.
pub open spec fn previous_day(y: int, m: int, d: int) -> (int, int, int) {
    if d > 1 {
        (y, m, d - 1)
    } else if m > 1 {
        (y, m - 1, days_in_month(y, m - 1))
    } else {
        (y - 1, 12, 31)
    }
}

pub open spec fn is_ascii_digit(c: char) -> bool {
    48 <= (c as u32) <= 57
}

pub open spec fn all_ascii_digits(s: Seq<char>) -> bool {
    forall|i: int| 0 <= i < s.len() ==> is_ascii_digit(#[trigger] s[i])
}

/// The number written by a sequence of decimal digit characters.
pub open spec fn digits_val(s: Seq<char>) -> int
    decreases s.len(),
{
    if s.len() == 0 {
        0
    } else {
        digits_val(s.drop_last()) * 10 + ((s.last() as u32) - 48)
    }
}

/// The value of one boundary field: the written number if the field is a
/// nonempty run of digits whose value is at most `max`, else the default.
pub open spec fn field_value(s: Seq<char>, max: int, dflt: int) -> int {
    if s.len() > 0 && all_ascii_digits(s) && digits_val(s) <= max {
        digits_val(s)
    } else {
        dflt
    }
}

/// The `(hour, minute)` boundary a day-boundary string denotes. The string
/// splits at its first `:`; without one, the whole boundary falls back to
/// 12:00. The hour falls back to 12 and the minute to 0, each on its own.
pub open spec fn boundary_of(s: Seq<char>) -> (int, int) {
    match s.index_of_first(':') {
        Some(i) => (field_value(s.take(i), 23, 12), field_value(s.skip(i + 1), 59, 0)),
        None => (12, 0),
    }
}

/// Whether the time of day of `c` lies strictly before the boundary
/// `bh:bm` (the boundary's second count is zero).
pub open spec fn before_boundary(c: CivilDateTime, bh: int, bm: int) -> bool {
    (c.hour as int) < bh || ((c.hour as int) == bh && (c.minute as int) < bm)
}

/// The logical day of `c` under the given boundary string.
pub open spec fn logical_day(c: CivilDateTime, line: Seq<char>) -> (int, int, int) {
    let b = boundary_of(line);
    if before_boundary(c, b.0, b.1) {
        previous_day(c.year as int, c.month as int, c.day as int)
    } else {
        (c.year as int, c.month as int, c.day as int)
    }
}

pub open spec fn digit_char(v: int) -> char {
    if v == 0 {
        '0'
    } else if v == 1 {
        '1'
    } else if v == 2 {
        '2'
    } else if v == 3 {
        '3'
    } else if v == 4 {
        '4'
    } else if v == 5 {
        '5'
    } else if v == 6 {
        '6'
    } else if v == 7 {
        '7'
    } else if v == 8 {
        '8'
    } else {
        '9'
    }
}

/// The ten-character `YYYY-MM-DD` form of a date with a four-digit year.
pub open spec fn date_seq(y: int, m: int, d: int) -> Seq<char> {
    seq![
        digit_char(y / 1000),
        digit_char((y / 100) % 10),
        digit_char((y / 10) % 10),
        digit_char(y % 10),
        '-',
        digit_char(m / 10),
        digit_char(m % 10),
        '-',
        digit_char(d / 10),
        digit_char(d % 10),
    ]
}

/// What classification of a resolved local date-time returns: the folder
/// name of the logical day, or nothing when that day's year has no
/// four-digit form.
pub open spec fn classify_spec(c: CivilDateTime, line: Seq<char>) -> Option<Seq<char>> {
    let (y, m, d) = logical_day(c, line);
    if 0 <= y <= 9999 {
        Some(date_seq(y, m, d))
    } else {
        None
    }
}

proof fn lemma_digits_val_nonneg(s: Seq<char>)
    requires
        all_ascii_digits(s),
    ensures
        digits_val(s) >= 0,
    decreases s.len(),
{
    if s.len() > 0 {
        assert(forall|i: int| 0 <= i < s.drop_last().len() ==> is_ascii_digit(
            #[trigger] s.drop_last()[i],
        ));
        lemma_digits_val_nonneg(s.drop_last());
    }
}

/// Law: whatever the boundary string holds, the boundary it denotes is a
/// valid time of day, and a string without `:` denotes exactly 12:00.
pub proof fn lemma_boundary_always_valid(line: Seq<char>)
    ensures
        0 <= boundary_of(line).0 <= 23,
        0 <= boundary_of(line).1 <= 59,
        line.index_of_first(':') is None ==> boundary_of(line).0 == 12 && boundary_of(line).1
            == 0,
{
    match line.index_of_first(':') {
        Some(i) => {
            let h = line.take(i);
            let m = line.skip(i + 1);
            if h.len() > 0 && all_ascii_digits(h) && digits_val(h) <= 23 {
                lemma_digits_val_nonneg(h);
            }
            if m.len() > 0 && all_ascii_digits(m) && digits_val(m) <= 59 {
                lemma_digits_val_nonneg(m);
            }
        },
        None => {},
    }
}

/// Law: the previous calendar day of a calendar-valid date is itself
/// calendar-valid, so every destination folder names a real date.
pub proof fn lemma_previous_day_valid(y: int, m: int, d: int)
    requires
        1 <= m <= 12,
        1 <= d <= days_in_month(y, m),
    ensures
        ({
            let (py, pm, pd) = previous_day(y, m, d);
            &&& 1 <= pm <= 12
            &&& 1 <= pd <= days_in_month(py, pm)
            &&& y - 1 <= py <= y
        }),
{
}

/// Law: every folder name the classifier produces has the ten-character
/// `YYYY-MM-DD` shape, with the separators in place.
pub proof fn lemma_date_seq_shape(y: int, m: int, d: int)
    ensures
        date_seq(y, m, d).len() == 10,
        date_seq(y, m, d)[4] == '-',
        date_seq(y, m, d)[7] == '-',
{
}

/// Law: a modification time strictly before the boundary time of day is
/// bucketed under the previous calendar day; one at or after it is bucketed
/// under its own calendar day.
pub proof fn lemma_boundary_decides_day(c: CivilDateTime, line: Seq<char>)
    requires
        c.wf(),
    ensures
        before_boundary(c, boundary_of(line).0, boundary_of(line).1) ==> logical_day(c, line)
            == previous_day(c.year as int, c.month as int, c.day as int),
        !before_boundary(c, boundary_of(line).0, boundary_of(line).1) ==> logical_day(c, line)
            == (c.year as int, c.month as int, c.day as int),
{
}

fn is_leap_year_exec(y: i32) -> (r: bool)
    requires
        y >= 0,
    ensures
        r == is_leap_year(y as int),
{
    (y % 4 == 0 && y % 100 != 0) || y % 400 == 0
}

fn days_in_month_exec(y: i32, m: u8) -> (r: u8)
    requires
        y >= 0,
        1 <= m <= 12,
    ensures
        r as int == days_in_month(y as int, m as int),
{
    if m == 2 {
        if is_leap_year_exec(y) {
            29
        } else {
            28
        }
    } else if m == 4 || m == 6 || m == 9 || m == 11 {
        30
    } else {
        31
    }
}

fn previous_day_exec(y: i32, mth: u8, d: u8) -> (r: (i32, u8, u8))
    requires
        0 <= y < 400000,
        1 <= mth <= 12,
        1 <= d,
    ensures
        (r.0 as int, r.1 as int, r.2 as int) == previous_day(y as int, mth as int, d as int),
{
    if d > 1 {
        (y, mth, d - 1)
    } else if mth > 1 {
        (y, mth - 1, days_in_month_exec(y, mth - 1))
    } else {
        (y - 1, 12, 31)
    }
}

/// One field of the boundary string: the characters `from..to` of `s`,
/// read as a decimal number capped at `max`, with `dflt` standing in for a
/// missing, non-numeric or out-of-range field.
fn parse_field(s: &str, from: usize, to: usize, max: u8, dflt: u8) -> (r: u8)
    requires
        from <= to <= s@.len(),
        max <= 99,
    ensures
        r as int == field_value(s@.subrange(from as int, to as int), max as int, dflt as int),
{
    let ghost field = s@.subrange(from as int, to as int);
    if from == to {
        return dflt;
    }
    let mut v: u32 = 0;
    let mut all_digits = true;
    let mut j: usize = from;
    while j < to
        invariant
            from <= j <= to <= s@.len(),
            field == s@.subrange(from as int, to as int),
            all_digits == all_ascii_digits(s@.subrange(from as int, j as int)),
            all_digits ==> {
                let sub = s@.subrange(from as int, j as int);
                &&& (digits_val(sub) <= 99 ==> v == digits_val(sub))
                &&& (digits_val(sub) > 99 ==> v > 99)
            },
            v <= 999,
        decreases to - j,
    {
        let ghost sub = s@.subrange(from as int, j as int);
        let ghost sub_next = s@.subrange(from as int, j as int + 1);
        let c = s.get_char(j);
        let u = c as u32;
        proof {
            assert(sub_next.drop_last() =~= sub);
            assert(sub_next.last() == s@[j as int]);
            if all_ascii_digits(sub_next) {
                lemma_digits_val_nonneg(sub);
            }
        }
        if 48 <= u && u <= 57 {
            if v <= 99 {
                v = v * 10 + (u - 48);
            }
            proof {
                if all_ascii_digits(sub) {
                    assert(all_ascii_digits(sub_next)) by {
                        assert(forall|i: int|
                            0 <= i < sub_next.len() - 1 ==> #[trigger] sub_next[i] == sub[i]);
                    }
                    assert(digits_val(sub_next) == digits_val(sub) * 10 + ((s@[j as int]
                        as u32) - 48));
                    lemma_digits_val_nonneg(sub_next);
                } else {
                    assert(!all_ascii_digits(sub_next)) by {
                        let i = choose|i: int|
                            0 <= i < sub.len() && !is_ascii_digit(#[trigger] sub[i]);
                        assert(sub_next[i] == sub[i]);
                    }
                }
            }
        } else {
            all_digits = false;
            proof {
                assert(!is_ascii_digit(sub_next.last()));
                assert(!all_ascii_digits(sub_next));
            }
        }
        j += 1;
    }
    proof {
        assert(s@.subrange(from as int, j as int) == field);
    }
    if all_digits && v <= max as u32 {
        proof {
            lemma_digits_val_nonneg(field);
        }
        v as u8
    } else {
        dflt
    }
}

/// Parse the `HH:MM` day-boundary string into an `(hour, minute)` pair,
/// falling back per field to hour 12 and minute 0.
pub fn parse_boundary(s: &str) -> (r: (u8, u8))
    ensures
        r.0 as int == boundary_of(s@).0,
        r.1 as int == boundary_of(s@).1,
        r.0 <= 23,
        r.1 <= 59,
{
    proof {
        s@.index_of_first_ensures(':');
        lemma_boundary_always_valid(s@);
    }
    let n = s.unicode_len();
    let mut i: usize = 0;
    let mut found = false;
    while i < n && !found
        invariant
            i <= n,
            n == s@.len(),
            forall|j: int| 0 <= j < i ==> s@[j] != ':',
            found ==> i < n && s@[i as int] == ':',
        decreases n - i + (if found { 0int } else { 1int }),
    {
        if s.get_char(i) == ':' {
            found = true;
        } else {
            i += 1;
        }
    }
    if !found {
        proof {
            assert(s@.index_of_first(':') is None) by {
                if s@.index_of_first(':') is Some {
                    let k = s@.index_of_first(':').unwrap();
                    assert(s@[k] == ':');
                }
            }
        }
        return (12, 0);
    }
    proof {
        assert(s@.index_of_first(':') == Some(i as int)) by {
            match s@.index_of_first(':') {
                Some(k) => {
                    if k < i {
                        assert(s@[k] == ':');
                    }
                    if k > i {
                        assert(s@[i as int] != ':');
                    }
                },
                None => {
                    assert(s@[i as int] != ':');
                },
            }
        }
        assert(s@.take(i as int) == s@.subrange(0, i as int));
        assert(s@.skip(i as int + 1) == s@.subrange(i as int + 1, s@.len() as int));
    }
    let h = parse_field(s, 0, i, 23, 12);
    let m = parse_field(s, i + 1, n, 59, 0);
    (h, m)
}

fn push_hyphen(s: &mut String)
    ensures
        final(s)@ == old(s)@ + seq!['-'],
{
    proof {
        reveal_strlit("-");
    }
    s.append("-");
    proof {
        assert("-"@ =~= seq!['-']);
    }
}

fn push_digit(s: &mut String, v: u8)
    requires
        v <= 9,
    ensures
        final(s)@ == old(s)@ + seq![digit_char(v as int)],
{
    proof {
        reveal_strlit("0");
        reveal_strlit("1");
        reveal_strlit("2");
        reveal_strlit("3");
        reveal_strlit("4");
        reveal_strlit("5");
        reveal_strlit("6");
        reveal_strlit("7");
        reveal_strlit("8");
        reveal_strlit("9");
    }
    if v == 0 {
        s.append("0");
        proof {
            assert("0"@ =~= seq![digit_char(v as int)]);
        }
    } else if v == 1 {
        s.append("1");
        proof {
            assert("1"@ =~= seq![digit_char(v as int)]);
        }
    } else if v == 2 {
        s.append("2");
        proof {
            assert("2"@ =~= seq![digit_char(v as int)]);
        }
    } else if v == 3 {
        s.append("3");
        proof {
            assert("3"@ =~= seq![digit_char(v as int)]);
        }
    } else if v == 4 {
        s.append("4");
        proof {
            assert("4"@ =~= seq![digit_char(v as int)]);
        }
    } else if v == 5 {
        s.append("5");
        proof {
            assert("5"@ =~= seq![digit_char(v as int)]);
        }
    } else if v == 6 {
        s.append("6");
        proof {
            assert("6"@ =~= seq![digit_char(v as int)]);
        }
    } else if v == 7 {
        s.append("7");
        proof {
            assert("7"@ =~= seq![digit_char(v as int)]);
        }
    } else if v == 8 {
        s.append("8");
        proof {
            assert("8"@ =~= seq![digit_char(v as int)]);
        }
    } else {
        s.append("9");
        proof {
            assert("9"@ =~= seq![digit_char(v as int)]);
        }
    }
}

/// Write a date with a four-digit year as `YYYY-MM-DD`.
fn format_date(y: u16, m: u8, d: u8) -> (r: String)
    requires
        y <= 9999,
        m <= 12,
        d <= 31,
    ensures
        r@ == date_seq(y as int, m as int, d as int),
{
    let mut s = String::new();
    push_digit(&mut s, (y / 1000) as u8);
    push_digit(&mut s, ((y / 100) % 10) as u8);
    push_digit(&mut s, ((y / 10) % 10) as u8);
    push_digit(&mut s, (y % 10) as u8);
    push_hyphen(&mut s);
    push_digit(&mut s, m / 10);
    push_digit(&mut s, m % 10);
    push_hyphen(&mut s);
    push_digit(&mut s, d / 10);
    push_digit(&mut s, d % 10);
    proof {
        assert(s@ =~= date_seq(y as int, m as int, d as int));
    }
    s
}

/// Bucket an already-resolved local civil date-time under its logical day.
/// Returns the `YYYY-MM-DD` folder name, or an error exactly when the
/// logical day's year has no four-digit form.
pub fn classify_civil(c: &CivilDateTime, date_line: &str) -> (r: Result<String, ClassifyError>)
    requires
        c.wf(),
    ensures
        match r {
            Ok(s) => classify_spec(*c, date_line@) == Some(s@),
            Err(e) => classify_spec(*c, date_line@) is None && e == ClassifyError::DateOutOfRange,
        },
{
    let (bh, bm) = parse_boundary(date_line);
    let before = c.hour < bh || (c.hour == bh && c.minute < bm);
    if c.year < 0 {
        return Err(ClassifyError::DateOutOfRange);
    }
    let (y, m, d) = if before {
        previous_day_exec(c.year, c.month, c.day)
    } else {
        (c.year, c.month, c.day)
    };
    if y <= 9999 && y >= 0 {
        Ok(format_date(y as u16, m, d))
    } else {
        Err(ClassifyError::DateOutOfRange)
    }
}

/// Relies on chrono: `Local.timestamp_opt(secs, 0)` resolves an epoch second
/// to at most one local civil time, whose `Datelike` and `Timelike` fields
/// form a calendar-valid proleptic-Gregorian date (month 1-12, day 1 to the
/// month's length, hour 0-23, minute 0-59) with a year inside chrono's
/// `NaiveDate` range.
#[verifier::external_body]
fn local_civil_of_epoch(secs: i64) -> (r: Option<CivilDateTime>)
    ensures
        r matches Some(c) ==> c.wf(),
{
    match chrono::Local.timestamp_opt(secs, 0) {
        chrono::LocalResult::Single(dt) => Some(
            CivilDateTime {
                year: dt.year(),
                month: dt.month() as u8,
                day: dt.day() as u8,
                hour: dt.hour() as u8,
                minute: dt.minute() as u8,
            },
        ),
        _ => None,
    }
}

/// Map a file's modification instant (seconds since the Unix epoch, as the
/// filesystem reports it) and the configured day-boundary to the folder name
/// of its logical day in local time.
pub fn classify(modified_epoch_secs: u64, date_line: &str) -> (r: Result<String, ClassifyError>)
    ensures
        r matches Ok(s) ==> exists|c: CivilDateTime|
            c.wf() && classify_spec(c, date_line@) == Some(s@),
        r matches Ok(s) ==> modified_epoch_secs <= i64::MAX,
        modified_epoch_secs > i64::MAX ==> (r matches Err(e) && e
            == ClassifyError::SecondsOutOfRange),
        r matches Err(e) ==> (e == ClassifyError::SecondsOutOfRange <==> modified_epoch_secs
            > i64::MAX),
{
    if modified_epoch_secs > i64::MAX as u64 {
        return Err(ClassifyError::SecondsOutOfRange);
    }
    match local_civil_of_epoch(modified_epoch_secs as i64) {
        None => Err(ClassifyError::LocalTimeOutOfRange),
        Some(c) => match classify_civil(&c, date_line) {
            Ok(s) => {
                proof {
                    assert(c.wf() && classify_spec(c, date_line@) == Some(s@));
                }
                Ok(s)
            },
            Err(_) => Err(ClassifyError::DateOutOfRange),
        },
    }
}

} // verus!
