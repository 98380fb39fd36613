use vstd::prelude::*;

use crate::text::{chars_of, lemma_split_nonempty, split, split_spec, string_of, views};
use crate::week::push_all;

verus! {

/// The message of a test list that holds no test.
pub const NO_TESTS: &'static str = "You don't have any tests.";

/// At most this many dates are listed.
pub const MAX_DAYS: usize = 2;

/// One entry of the portal's last-tests widget: its label and its date.
pub struct TestEntry {
    pub name: String,
    pub url: String,
}

/// The tests of one date.
pub struct TestsDay {
    pub date: String,
    pub tests: Vec<String>,
}

/// The grouped test list, or a message where there is none.
pub enum TestsResponse {
    Success(Vec<TestsDay>),
    Failure(String),
}

/// Why a test list could not be read.
#[derive(PartialEq, Eq, Structural, Debug, Clone, Copy)]
pub enum TestsError {
    /// An entry's label does not hold its own date.
    Malformed,
}

pub type DayView = (Seq<char>, Seq<Seq<char>>);

pub open spec fn day_view(d: TestsDay) -> DayView {
    (d.date@, d.tests@.map_values(|t: String| t@))
}

pub open spec fn days_view(v: Seq<TestsDay>) -> Seq<DayView> {
    v.map_values(|d: TestsDay| day_view(d))
}

pub open spec fn entries_view(v: Seq<TestEntry>) -> Seq<(Seq<char>, Seq<char>)> {
    v.map_values(|e: TestEntry| (e.name@, e.url@))
}

/// The label of a test: its class, then its kind, read from an entry label
/// of the form `class <date> kind: ...`.
pub open spec fn test_label(name: Seq<char>, date: Seq<char>) -> Option<Seq<char>> {
    let pieces = split_spec(name, " "@ + date + " "@);
    if pieces.len() < 2 {
        None
    } else {
        Some(pieces[0] + " - "@ + split_spec(pieces[1], ":"@)[0])
    }
}

/// Some day of `days` has the date `date`.
pub open spec fn has_day(days: Seq<DayView>, date: Seq<char>) -> bool {
    exists|k: int| 0 <= k < days.len() && days[k].0 == date
}

/// `k` is the first day of `days` with the date `date`.
pub open spec fn is_day_of(days: Seq<DayView>, date: Seq<char>, k: int) -> bool {
    0 <= k < days.len() && days[k].0 == date && forall|m: int| 0 <= m < k ==> days[m].0 != date
}

/// The position of the day with the date `date`.
pub open spec fn day_of(days: Seq<DayView>, date: Seq<char>) -> int {
    choose|k: int| is_day_of(days, date, k)
}

/// The grouping of the entries from `i` on into `days`: an entry of a date
/// not seen yet opens a day, and a third date ends the list; each test goes
/// to the day of its own date.
pub open spec fn tests_from(entries: Seq<(Seq<char>, Seq<char>)>, i: int, days: Seq<DayView>) -> Result<
    Seq<DayView>,
    TestsError,
>
    decreases entries.len() - i,
{
    if i < 0 || i >= entries.len() {
        Ok(days)
    } else {
        let (name, date) = entries[i];
        let fresh = !has_day(days, date);
        if fresh && days.len() >= MAX_DAYS {
            Ok(days)
        } else {
            match test_label(name, date) {
                None => Err(TestsError::Malformed),
                Some(label) => {
                    let opened = if fresh { days.push((date, Seq::empty())) } else { days };
                    let k = day_of(opened, date);
                    tests_from(entries, i + 1, opened.update(k, (opened[k].0, opened[k].1.push(label))))
                },
            }
        }
    }
}

/// The test days of the entries.
pub open spec fn tests_spec(entries: Seq<(Seq<char>, Seq<char>)>) -> Result<Seq<DayView>, TestsError> {
    tests_from(entries, 0, Seq::empty())
}

fn label_of(name: &String, date: &String) -> (r: Option<String>)
    ensures
        match r {
            Some(l) => test_label(name@, date@) == Some(l@),
            None => test_label(name@, date@) is None,
        },
{
    let mut sep: Vec<char> = Vec::new();
    sep.push(' ');
    let dc = chars_of(date.as_str());
    push_all(&mut sep, dc.as_slice());
    sep.push(' ');
    proof {
        reveal_strlit(" ");
        assert(sep@ =~= " "@ + date@ + " "@);
    }
    let nc = chars_of(name.as_str());
    let pieces = split(nc.as_slice(), sep.as_slice());
    if pieces.len() < 2 {
        return None;
    }
    let colon: [char; 1] = [':'];
    proof {
        reveal_strlit(":");
        assert(colon@ =~= ":"@);
    }
    let kinds = split(pieces[1].as_slice(), colon.as_slice());
    proof {
        lemma_split_nonempty(pieces@[1]@, ":"@);
        assert(kinds@.len() == views(kinds@).len());
    }
    assert(views(pieces@)[1] == pieces@[1]@);
    assert(views(pieces@)[0] == pieces@[0]@);
    assert(views(kinds@)[0] == kinds@[0]@);
    let mut out: Vec<char> = Vec::new();
    push_all(&mut out, pieces[0].as_slice());
    let dash = chars_of(" - ");
    push_all(&mut out, dash.as_slice());
    push_all(&mut out, kinds[0].as_slice());
    Some(string_of(out.as_slice()))
}

/// Groups the entries of the last-tests widget by date, at most two dates;
/// with no entry at all, the answer is the no-tests message.
pub fn group_tests(entries: &Vec<TestEntry>) -> (r: Result<TestsResponse, TestsError>)
    ensures
        entries@.len() == 0 ==> (r matches Ok(TestsResponse::Failure(m)) && m@ == NO_TESTS@),
        entries@.len() > 0 ==> match r {
            Ok(TestsResponse::Success(days)) => tests_spec(entries_view(entries@)) == Ok::<
                _,
                TestsError,
            >(days_view(days@)),
            Ok(TestsResponse::Failure(_)) => false,
            Err(x) => tests_spec(entries_view(entries@)) == Err::<Seq<DayView>, TestsError>(x),
        },
{
    if entries.len() == 0 {
        return Ok(TestsResponse::Failure(String::from_str(NO_TESTS)));
    }
    let ghost ev = entries_view(entries@);
    let mut days: Vec<TestsDay> = Vec::new();
    let mut i: usize = 0;
    assert(days_view(days@) =~= Seq::<DayView>::empty());
    while i < entries.len()
        invariant
            ev == entries_view(entries@),
            ev.len() == entries@.len(),
            i <= entries@.len(),
            tests_spec(ev) == tests_from(ev, i as int, days_view(days@)),
        decreases entries@.len() - i,
    {
        let e = &entries[i];
        let ghost dv = days_view(days@);
        let mut k: usize = 0;
        let mut found: Option<usize> = None;
        while k < days.len() && found.is_none()
            invariant
                dv == days_view(days@),
                k <= days@.len(),
                match found {
                    Some(f) => is_day_of(dv, e.url@, f as int),
                    None => forall|m: int| 0 <= m < k ==> dv[m].0 != e.url@,
                },
            decreases days@.len() - k,
        {
            assert(dv[k as int].0 == days@[k as int].date@);
            if crate::markup::same_text(days[k].date.as_str(), e.url.as_str()) {
                found = Some(k);
            }
            k = k + 1;
        }
        let fresh = found.is_none();
        assert(fresh == !has_day(dv, e.url@));
        if fresh && days.len() >= MAX_DAYS {
            return Ok(TestsResponse::Success(days));
        }
        let label = match label_of(&e.name, &e.url) {
            Some(l) => l,
            None => {
                return Err(TestsError::Malformed);
            },
        };
        if fresh {
            let tests: Vec<String> = Vec::new();
            days.push(TestsDay { date: e.url.clone(), tests });
            assert(days_view(days@) =~= dv.push((e.url@, Seq::empty()))) by {
                assert(day_view(days@.last()) =~= (e.url@, Seq::<Seq<char>>::empty()));
            }
        }
        let ghost opened = days_view(days@);
        let at: usize = match found {
            Some(f) => f,
            None => days.len() - 1,
        };
        proof {
            assert(is_day_of(opened, e.url@, at as int));
            let c = choose|c: int| is_day_of(opened, e.url@, c);
            if c < at {
                assert(opened[c].0 != e.url@);
            } else if at < c {
                assert(opened[at as int].0 != e.url@);
            }
        }
        let ghost before = days@;
        let mut day = days.remove(at);
        day.tests.push(label);
        days.insert(at, day);
        proof {
            assert(day_view(day) =~= (opened[at as int].0, opened[at as int].1.push(label@)));
            assert(days@ =~= before.update(at as int, day));
            assert(days_view(days@) =~= opened.update(at as int, (opened[at as int].0, opened[at as int].1.push(label@))));
        }
        i = i + 1;
    }
    Ok(TestsResponse::Success(days))
}


/// No two days share a date.
pub open spec fn distinct_dates(days: Seq<DayView>) -> bool {
    forall|a: int, b: int| 0 <= a < b < days.len() ==> days[a].0 != days[b].0
}

proof fn lemma_days_cover(entries: Seq<(Seq<char>, Seq<char>)>, i: int, days: Seq<DayView>)
    requires
        0 <= i <= entries.len(),
        days.len() <= MAX_DAYS,
        distinct_dates(days),
        forall|j: int| 0 <= j < i ==> has_day(days, #[trigger] entries[j].1),
    ensures
        tests_from(entries, i, days) matches Ok(res) ==> res.len() <= MAX_DAYS && (res.len()
            == MAX_DAYS || forall|j: int| 0 <= j < entries.len() ==> has_day(res, #[trigger] entries[j].1)),
    decreases entries.len() - i,
{
    if i < entries.len() {
        let (name, date) = entries[i];
        let fresh = !has_day(days, date);
        if !(fresh && days.len() >= MAX_DAYS) {
            if let Some(label) = test_label(name, date) {
                let opened = if fresh { days.push((date, Seq::empty())) } else { days };
                let at = if fresh {
                    opened.len() - 1
                } else {
                    choose|k: int| 0 <= k < days.len() && days[k].0 == date
                };
                assert(is_day_of(opened, date, at)) by {
                    assert forall|m: int| 0 <= m < at implies opened[m].0 != date by {
                        if !fresh {
                            assert(opened[m].0 != opened[at].0);
                        }
                    }
                }
                let k = day_of(opened, date);
                assert(is_day_of(opened, date, k));
                if k < at {
                    assert(opened[k].0 != date);
                } else if at < k {
                    assert(opened[at].0 != date);
                }
                let next = opened.update(k, (opened[k].0, opened[k].1.push(label)));
                assert(distinct_dates(opened));
                assert(distinct_dates(next)) by {
                    assert forall|a: int, b: int| 0 <= a < b < next.len() implies next[a].0 != next[b].0 by {
                        assert(next[a].0 == opened[a].0 && next[b].0 == opened[b].0);
                    }
                }
                assert forall|j: int| 0 <= j < i + 1 implies has_day(next, #[trigger] entries[j].1) by {
                    let u = entries[j].1;
                    if j < i {
                        let k = choose|k: int| 0 <= k < days.len() && days[k].0 == u;
                        assert(opened[k].0 == u);
                        assert(next[k].0 == u);
                    } else if fresh {
                        assert(next[opened.len() - 1].0 == opened[opened.len() - 1].0);
                    } else {
                        let k = choose|k: int| 0 <= k < days.len() && days[k].0 == u;
                        assert(next[k].0 == u);
                    }
                }
                lemma_days_cover(entries, i + 1, next);
            }
        }
    }
}

proof fn lemma_labels_read(entries: Seq<(Seq<char>, Seq<char>)>, i: int, days: Seq<DayView>)
    requires
        0 <= i,
        forall|j: int| 0 <= j < entries.len() ==> #[trigger] test_label(entries[j].0, entries[j].1) is Some,
    ensures
        tests_from(entries, i, days) is Ok,
    decreases entries.len() - i,
{
    if i < entries.len() {
        let (name, date) = entries[i];
        assert(test_label(entries[i].0, entries[i].1) is Some);
        let fresh = !has_day(days, date);
        if !(fresh && days.len() >= MAX_DAYS) {
            let label = test_label(name, date)->0;
            let opened = if fresh { days.push((date, Seq::empty())) } else { days };
            let k = day_of(opened, date);
            lemma_labels_read(entries, i + 1, opened.update(k, (opened[k].0, opened[k].1.push(label))));
        }
    }
}

/// Where every entry's label holds its own date as ` <date> `, the list
/// reads, and with three or more distinct dates it holds exactly two days.
pub proof fn lemma_two_days_of_labelled(entries: Seq<(Seq<char>, Seq<char>)>, a: int, b: int, c: int)
    requires
        0 <= a < entries.len(),
        0 <= b < entries.len(),
        0 <= c < entries.len(),
        entries[a].1 != entries[b].1,
        entries[a].1 != entries[c].1,
        entries[b].1 != entries[c].1,
        forall|j: int| 0 <= j < entries.len() ==> #[trigger] test_label(entries[j].0, entries[j].1) is Some,
    ensures
        tests_spec(entries) is Ok,
        tests_spec(entries)->Ok_0.len() == MAX_DAYS,
{
    lemma_labels_read(entries, 0, Seq::empty());
    lemma_two_days_at_most(entries, a, b, c);
}

/// With no entry the list is the no-tests message (see `group_tests`); with
/// entries of three or more distinct dates it holds exactly two days.
pub proof fn lemma_two_days_at_most(entries: Seq<(Seq<char>, Seq<char>)>, a: int, b: int, c: int)
    requires
        0 <= a < entries.len(),
        0 <= b < entries.len(),
        0 <= c < entries.len(),
        entries[a].1 != entries[b].1,
        entries[a].1 != entries[c].1,
        entries[b].1 != entries[c].1,
        tests_spec(entries) is Ok,
    ensures
        tests_spec(entries)->Ok_0.len() == MAX_DAYS,
{
    lemma_days_cover(entries, 0, Seq::empty());
    let res = tests_spec(entries)->Ok_0;
    if res.len() < MAX_DAYS {
        assert(has_day(res, entries[a].1));
        assert(has_day(res, entries[b].1));
        assert(has_day(res, entries[c].1));
        let ka = choose|k: int| 0 <= k < res.len() && res[k].0 == entries[a].1;
        let kb = choose|k: int| 0 <= k < res.len() && res[k].0 == entries[b].1;
        let kc = choose|k: int| 0 <= k < res.len() && res[k].0 == entries[c].1;
        assert(false);
    }
}

} // verus!
