use vstd::prelude::*;

use chrono::Datelike;

use crate::text::string_of;

verus! {

/// How many weeks, this one first, the calendar covers.
pub const WEEKS_AHEAD: u32 = 3;

/// chrono's Monday of ISO week `week` of `year`, as year, month and day;
/// `None` where that week does not exist.
pub uninterp spec fn iso_monday(year: i32, week: u32) -> Option<(i32, u32, u32)>;

/// Relies on chrono::NaiveDate::from_isoywd_opt with `Weekday::Mon`, read
/// back through `Datelike`: months count from 1 to 12 and days from 1. It
/// steps to the year before or after, so the year may not be an extreme.
#[verifier::external_body]
fn monday_of(year: i32, week: u32) -> (r: Option<(i32, u32, u32)>)
    requires
        i32::MIN < year < i32::MAX,
    ensures
        r == iso_monday(year, week),
        r matches Some((_, m, d)) ==> 1 <= m <= 12 && 1 <= d <= 31,
{
    chrono::NaiveDate::from_isoywd_opt(year, week, chrono::Weekday::Mon).map(
        |d| (d.year(), d.month(), d.day()),
    )
}

pub open spec fn digit_char(n: int) -> char {
    "0123456789"@[n]
}

/// `n` in two decimal digits.
pub open spec fn two_digits(n: int) -> Seq<char> {
    seq![digit_char(n / 10), digit_char(n % 10)]
}

/// `n` in four decimal digits.
pub open spec fn four_digits(n: int) -> Seq<char> {
    two_digits(n / 100) + two_digits(n % 100)
}

/// The start of a day as the weekly-table request writes it:
/// `YYYY-MM-DDT00:00:00`.
pub open spec fn day_start(date: (i32, u32, u32)) -> Seq<char> {
    four_digits(date.0 as int) + "-"@ + two_digits(date.1 as int) + "-"@ + two_digits(
        date.2 as int,
    ) + "T00:00:00"@
}

/// `t` is the day start of the Monday of ISO week `week` of `year`.
pub open spec fn starts_week(year: i32, week: u32, t: Seq<char>) -> bool {
    match iso_monday(year, week) {
        Some(date) => t == day_start(date),
        None => false,
    }
}

/// The week exists and its Monday's year has four digits.
pub open spec fn has_four_digit_monday(year: i32, week: u32) -> bool {
    match iso_monday(year, week) {
        Some(date) => 0 <= date.0 <= 9999,
        None => false,
    }
}

fn digit_of(n: u32) -> (r: char)
    requires
        n < 10,
    ensures
        r == digit_char(n as int),
{
    let digits: [char; 10] = ['0', '1', '2', '3', '4', '5', '6', '7', '8', '9'];
    proof {
        reveal_strlit("0123456789");
        assert(digits@ =~= "0123456789"@);
    }
    digits[n as usize]
}

fn push_two(v: &mut Vec<char>, n: u32)
    requires
        n < 100,
    ensures
        final(v)@ == old(v)@ + two_digits(n as int),
{
    v.push(digit_of(n / 10));
    v.push(digit_of(n % 10));
    assert(final(v)@ =~= old(v)@ + two_digits(n as int));
}

/// The start of a day as the weekly-table request writes it, for years of
/// four digits.
pub fn day_start_text(date: (i32, u32, u32)) -> (r: Option<String>)
    ensures
        match r {
            Some(t) => t@ == day_start(date),
            None => !(0 <= date.0 <= 9999 && date.1 < 100 && date.2 < 100),
        },
{
    let (y, m, d) = date;
    if y < 0 || y > 9999 || m >= 100 || d >= 100 {
        return None;
    }
    let year = y as u32;
    let mut v: Vec<char> = Vec::new();
    push_two(&mut v, year / 100);
    push_two(&mut v, year % 100);
    v.push('-');
    push_two(&mut v, m);
    v.push('-');
    push_two(&mut v, d);
    let tail: [char; 9] = ['T', '0', '0', ':', '0', '0', ':', '0', '0'];
    let mut k: usize = 0;
    let ghost head = v@;
    while k < 9
        invariant
            k <= 9,
            v@ == head + tail@.take(k as int),
        decreases 9 - k,
    {
        v.push(tail[k]);
        k = k + 1;
        assert(v@ =~= head + tail@.take(k as int));
    }
    proof {
        reveal_strlit("-");
        reveal_strlit("T00:00:00");
        assert(tail@.take(9) =~= "T00:00:00"@);
        assert(v@ =~= day_start(date));
    }
    Some(string_of(v.as_slice()))
}

/// The number of ISO weeks of `year`: 53 where chrono knows a week 53.
pub open spec fn weeks_in(year: i32) -> u32 {
    if iso_monday(year, 53) is Some {
        53
    } else {
        52
    }
}

/// The ISO week `k` weeks after week `week` of `year`, as year and week:
/// past the year's last week it goes on into the next year.
pub open spec fn week_after(year: i32, week: u32, k: int) -> (i32, u32) {
    if week + k <= weeks_in(year) {
        (year, (week + k) as u32)
    } else {
        ((year + 1) as i32, (week + k - weeks_in(year)) as u32)
    }
}

/// `t` is the day start of the Monday of the ISO week `week` of `year`.
pub open spec fn starts_after(year: i32, week: u32, k: int, t: Seq<char>) -> bool {
    let (y, w) = week_after(year, week, k);
    starts_week(y, w, t)
}

/// The Monday of the ISO week `k` weeks on exists, in a four-digit year.
pub open spec fn usable_after(year: i32, week: u32, k: int) -> bool {
    let (y, w) = week_after(year, week, k);
    has_four_digit_monday(y, w)
}

/// The day starts of the Mondays of ISO week `week` of `year` and of the
/// weeks after it, this week first, going on into the next year where the
/// year ends: the dates the weekly table is asked for. Years outside four
/// digits, and weeks the year does not have, give `None`.
pub fn week_starts(year: i32, week: u32) -> (r: Option<Vec<String>>)
    ensures
        r matches Some(v) ==> v@.len() == WEEKS_AHEAD && forall|k: int|
            0 <= k < WEEKS_AHEAD ==> starts_after(year, week, k, (#[trigger] v@[k])@),
        r is None ==> !(0 <= year <= 9999) || week < 1 || week > weeks_in(year) || exists|k: int|
            0 <= k < WEEKS_AHEAD && !#[trigger] usable_after(year, week, k),
{
    if year < 0 || year > 9999 || week < 1 || week > 53 {
        return None;
    }
    let weeks: u32 = match monday_of(year, 53) {
        Some(_) => 53,
        None => 52,
    };
    if week > weeks {
        return None;
    }
    let mut v: Vec<String> = Vec::new();
    let mut k: u32 = 0;
    while k < WEEKS_AHEAD
        invariant
            0 <= year <= 9999,
            1 <= week <= weeks,
            weeks == weeks_in(year),
            k <= WEEKS_AHEAD,
            v@.len() == k,
            forall|j: int| 0 <= j < k ==> starts_after(year, week, j, (#[trigger] v@[j])@),
        decreases WEEKS_AHEAD - k,
    {
        let (y, w) = if week + k <= weeks {
            (year, week + k)
        } else {
            (year + 1, week + k - weeks)
        };
        assert((y, w) == week_after(year, week, k as int));
        match monday_of(y, w) {
            None => {
                assert(!usable_after(year, week, k as int));
                return None;
            },
            Some(date) => match day_start_text(date) {
                None => {
                    assert(!usable_after(year, week, k as int));
                    return None;
                },
                Some(t) => {
                    v.push(t);
                },
            },
        }
        k = k + 1;
    }
    Some(v)
}

} // verus!
