use vstd::prelude::*;

use crate::text::{chars_of, string_of};
use crate::week::{
    events_view, header_texts, push_all, table_views, week_plan_events, week_spec, EventView,
    ScheduleEvent, WeekError, WeekEvents, WeekPlanData,
};

verus! {

#[verifier::external_type_specification]
#[verifier::external_body]
pub struct ExCalendar<'a>(ics::ICalendar<'a>);

#[verifier::external_type_specification]
#[verifier::external_body]
pub struct ExEvent<'a>(ics::Event<'a>);

/// The properties of an event, as key and value, in the order they were added.
pub uninterp spec fn event_entries(e: ics::Event<'static>) -> Seq<(Seq<char>, Seq<char>)>;

/// The event has no alarm and none of its properties has a parameter.
pub uninterp spec fn plain_event(e: ics::Event<'static>) -> bool;

/// The calendar's own properties, as key and value, in the order they were
/// added.
pub uninterp spec fn calendar_properties(c: ics::ICalendar<'static>) -> Seq<(Seq<char>, Seq<char>)>;

/// The events of a calendar, each as its properties, in the order added.
pub uninterp spec fn calendar_entries(c: ics::ICalendar<'static>) -> Seq<Seq<(Seq<char>, Seq<char>)>>;

/// The calendar holds only events, each plain, and its own properties have
/// no parameter.
pub uninterp spec fn plain_calendar(c: ics::ICalendar<'static>) -> bool;

/// The text that ics writes for a `VCALENDAR` with the given properties
/// holding `VEVENT`s with the given properties, none of them with a
/// parameter and no event with an alarm.
pub uninterp spec fn ics_text(
    properties: Seq<(Seq<char>, Seq<char>)>,
    events: Seq<Seq<(Seq<char>, Seq<char>)>>,
) -> Seq<char>;

/// The own properties of every calendar this library writes.
pub open spec fn feed_properties() -> Seq<(Seq<char>, Seq<char>)> {
    seq![("VERSION"@, "2.0"@), ("PRODID"@, "ics-rs"@)]
}

/// Relies on ics::ICalendar::new: a calendar whose properties are `VERSION`
/// 2.0 and `PRODID` `ics-rs`, in this order, with no parameter and no
/// component.
#[verifier::external_body]
fn new_calendar() -> (r: ics::ICalendar<'static>)
    ensures
        calendar_properties(r) == feed_properties(),
        calendar_entries(r) == Seq::<Seq<(Seq<char>, Seq<char>)>>::empty(),
        plain_calendar(r),
{
    ics::ICalendar::new("2.0", "ics-rs")
}

/// Relies on ics::Event::new: an event whose properties are its `UID` and
/// its `DTSTAMP`, without parameters, and which has no alarm.
#[verifier::external_body]
fn new_event(uid: String, stamp: String) -> (r: ics::Event<'static>)
    ensures
        event_entries(r) == seq![("UID"@, uid@), ("DTSTAMP"@, stamp@)],
        plain_event(r),
{
    ics::Event::new(uid, stamp)
}

/// Relies on ics::Event::push with ics::components::Property::new: the
/// property, which has no parameter, is added after the others.
#[verifier::external_body]
fn push_property(e: &mut ics::Event<'static>, key: String, value: String)
    ensures
        event_entries(*final(e)) == event_entries(*old(e)).push((key@, value@)),
        plain_event(*final(e)) == plain_event(*old(e)),
{
    e.push(ics::components::Property::new(key, value));
}

/// Relies on ics::ICalendar::add_event: the event becomes the last
/// component; the calendar's own properties stay as they are.
#[verifier::external_body]
fn add_event(c: &mut ics::ICalendar<'static>, e: ics::Event<'static>)
    ensures
        calendar_entries(*final(c)) == calendar_entries(*old(c)).push(event_entries(e)),
        calendar_properties(*final(c)) == calendar_properties(*old(c)),
        plain_calendar(*final(c)) == (plain_calendar(*old(c)) && plain_event(e)),
{
    c.add_event(e);
}

/// Relies on ics::ICalendar::write into a byte buffer, read back as UTF-8:
/// the calendar's text. Writing into a `Vec` does not fail, and ics folds
/// lines only at character boundaries, so the bytes are UTF-8.
#[verifier::external_body]
fn calendar_text(c: &ics::ICalendar<'static>) -> (r: Option<String>)
    ensures
        r is Some,
        r matches Some(t) ==> (plain_calendar(*c) ==> t@ == ics_text(
            calendar_properties(*c),
            calendar_entries(*c),
        )),
{
    let mut buffer: Vec<u8> = Vec::new();
    match c.write(&mut buffer) {
        Ok(()) => String::from_utf8(buffer).ok(),
        Err(_) => None,
    }
}

/// The calendar properties of a lesson after its `UID` and `DTSTAMP`:
/// organizer, summary, start, end, a cancelled status, location and
/// description, each where it applies, in this order.
pub open spec fn properties_of(e: EventView) -> Seq<(Seq<char>, Seq<char>)> {
    (match e.organizer {
        Some((name, email)) => seq![
            ("ORGANIZER;CN=\""@ + name + "\""@, "MAILTO:"@ + email),
        ],
        None => Seq::empty(),
    }) + seq![("SUMMARY"@, e.subject), ("DTSTART"@, e.start), ("DTEND"@, e.end)] + (if e.cancelled {
        seq![("STATUS"@, "CANCELLED"@)]
    } else {
        Seq::empty()
    }) + (match e.room {
        Some(r) => seq![("LOCATION"@, r)],
        None => Seq::empty(),
    }) + (match e.notes {
        Some(n) => seq![("DESCRIPTION"@, n)],
        None => Seq::empty(),
    })
}

/// All properties of the calendar event of a lesson stamped `stamp`: the
/// lesson's start is its `UID`.
pub open spec fn event_spec(e: EventView, stamp: Seq<char>) -> Seq<(Seq<char>, Seq<char>)> {
    seq![("UID"@, e.start), ("DTSTAMP"@, stamp)] + properties_of(e)
}

/// The calendar events of a list of lessons.
pub open spec fn feed_entries(events: Seq<EventView>, stamp: Seq<char>) -> Seq<
    Seq<(Seq<char>, Seq<char>)>,
> {
    events.map_values(|e: EventView| event_spec(e, stamp))
}

fn text_of_str(s: &str) -> (r: String)
    ensures
        r@ == s@,
{
    String::from_str(s)
}

fn concat3(a: &str, b: &String, c: &str) -> (r: String)
    ensures
        r@ == a@ + b@ + c@,
{
    let mut v = chars_of(a);
    let bc = chars_of(b.as_str());
    let cc = chars_of(c);
    push_all(&mut v, bc.as_slice());
    push_all(&mut v, cc.as_slice());
    string_of(v.as_slice())
}

/// The calendar event of a lesson, stamped `stamp`.
pub fn build_event(e: &ScheduleEvent, stamp: &str) -> (r: ics::Event<'static>)
    ensures
        event_entries(r) == event_spec(e@, stamp@),
        plain_event(r),
{
    let mut ev = new_event(e.start.clone(), text_of_str(stamp));
    let ghost acc = seq![("UID"@, e@.start), ("DTSTAMP"@, stamp@)];
    match &e.organizer {
        Some(o) => {
            push_property(&mut ev, concat3("ORGANIZER;CN=\"", &o.name, "\""), concat3("MAILTO:", &o.email, ""));
            proof {
                reveal_strlit("");
                assert("MAILTO:"@ + o.email@ + ""@ =~= "MAILTO:"@ + o.email@);
            }
        },
        None => {},
    }
    push_property(&mut ev, text_of_str("SUMMARY"), e.subject.clone());
    push_property(&mut ev, text_of_str("DTSTART"), e.start.clone());
    push_property(&mut ev, text_of_str("DTEND"), e.end.clone());
    if e.cancelled {
        push_property(&mut ev, text_of_str("STATUS"), text_of_str("CANCELLED"));
    }
    match &e.room {
        Some(r) => push_property(&mut ev, text_of_str("LOCATION"), r.clone()),
        None => {},
    }
    match &e.notes {
        Some(n) => push_property(&mut ev, text_of_str("DESCRIPTION"), n.clone()),
        None => {},
    }
    assert(event_entries(ev) =~= event_spec(e@, stamp@));
    ev
}

/// Adds the calendar events of `events`, in order, to `cal`.
fn add_events(cal: &mut ics::ICalendar<'static>, events: &Vec<ScheduleEvent>, stamp: &str)
    ensures
        calendar_properties(*final(cal)) == calendar_properties(*old(cal)),
        plain_calendar(*final(cal)) == plain_calendar(*old(cal)),
        calendar_entries(*final(cal)) == calendar_entries(*old(cal)) + feed_entries(
            events_view(events@),
            stamp@,
        ),
{
    let mut i: usize = 0;
    while i < events.len()
        invariant
            i <= events@.len(),
            calendar_entries(*cal) == calendar_entries(*old(cal)) + feed_entries(
                events_view(events@).take(i as int),
                stamp@,
            ),
            calendar_properties(*cal) == calendar_properties(*old(cal)),
            plain_calendar(*cal) == plain_calendar(*old(cal)),
        decreases events@.len() - i,
    {
        let ev = build_event(&events[i], stamp);
        add_event(cal, ev);
        proof {
            assert(events_view(events@).take(i + 1) =~= events_view(events@).take(i as int).push(
                events@[i as int]@,
            ));
            assert(feed_entries(events_view(events@).take(i + 1), stamp@) =~= feed_entries(
                events_view(events@).take(i as int),
                stamp@,
            ).push(event_spec(events@[i as int]@, stamp@)));
        }
        i = i + 1;
    }
    assert(events_view(events@).take(i as int) =~= events_view(events@));
}

/// The weeks' lessons of one stream, week after week: the replacement
/// stream where `replacement` holds, the regular one otherwise.
pub open spec fn stream_entries(
    weeks: Seq<WeekEvents>,
    replacement: bool,
    stamp: Seq<char>,
) -> Seq<Seq<(Seq<char>, Seq<char>)>>
    decreases weeks.len(),
{
    if weeks.len() == 0 {
        Seq::empty()
    } else {
        let w = weeks.last();
        stream_entries(weeks.drop_last(), replacement, stamp) + feed_entries(
            if replacement {
                events_view(w.replacements@)
            } else {
                events_view(w.regular@)
            },
            stamp,
        )
    }
}

/// The feed of one stream of the weeks' lessons, stamped `stamp`.
pub fn render_feed(weeks: &Vec<WeekEvents>, replacement: bool, stamp: &str) -> (r: String)
    ensures
        r@ == ics_text(feed_properties(), stream_entries(weeks@, replacement, stamp@)),
{
    let mut cal = new_calendar();
    let mut k: usize = 0;
    while k < weeks.len()
        invariant
            k <= weeks@.len(),
            calendar_entries(cal) == stream_entries(weeks@.take(k as int), replacement, stamp@),
            calendar_properties(cal) == feed_properties(),
            plain_calendar(cal),
        decreases weeks@.len() - k,
    {
        if replacement {
            add_events(&mut cal, &weeks[k].replacements, stamp);
        } else {
            add_events(&mut cal, &weeks[k].regular, stamp);
        }
        proof {
            assert(weeks@.take(k + 1).drop_last() =~= weeks@.take(k as int));
        }
        k = k + 1;
    }
    assert(weeks@.take(k as int) =~= weeks@);
    match calendar_text(&cal) {
        Some(t) => t,
        None => String::new(),
    }
}

/// The regular and the replacement feeds of the weeks' lessons.
pub fn build_feeds(weeks: &Vec<WeekEvents>, stamp: &str) -> (r: (String, String))
    ensures
        r.0@ == ics_text(feed_properties(), stream_entries(weeks@, false, stamp@)),
        r.1@ == ics_text(feed_properties(), stream_entries(weeks@, true, stamp@)),
{
    (render_feed(weeks, false, stamp), render_feed(weeks, true, stamp))
}

/// The weekly table reads without error.
pub open spec fn week_reads(table: WeekPlanData, domain: Seq<char>) -> bool {
    week_spec(header_texts(table.headers@), table_views(table.rows@), domain) is Ok
}

/// The lessons of each week, in order, where every week reads.
pub open spec fn weeks_read(tables: Seq<WeekPlanData>, domain: Seq<char>, weeks: Seq<WeekEvents>) -> bool {
    &&& weeks.len() == tables.len()
    &&& forall|k: int|
        0 <= k < tables.len() ==> week_spec(
            header_texts(#[trigger] tables[k].headers@),
            table_views(tables[k].rows@),
            domain,
        ) == Ok::<_, WeekError>(
            (events_view(weeks[k].regular@), events_view(weeks[k].replacements@)),
        )
}

/// The regular and the replacement feeds of consecutive weekly tables,
/// week after week, with organizers' addresses under `domain` and every
/// event stamped `stamp`. They are built exactly when every table reads;
/// otherwise the first table that fails gives its error.
pub fn build_calendar(tables: &Vec<WeekPlanData>, domain: &str, stamp: &str) -> (r: Result<
    (String, String),
    WeekError,
>)
    ensures
        r is Ok <==> forall|k: int|
            0 <= k < tables@.len() ==> #[trigger] week_reads(tables@[k], domain@),
        r matches Ok((a, b)) ==> exists|weeks: Seq<WeekEvents>|
            weeks_read(tables@, domain@, weeks) && a@ == ics_text(
                feed_properties(),
                stream_entries(weeks, false, stamp@),
            ) && b@ == ics_text(feed_properties(), stream_entries(weeks, true, stamp@)),
        r matches Err(e) ==> exists|k: int|
            0 <= k < tables@.len() && (forall|j: int|
                0 <= j < k ==> #[trigger] week_reads(tables@[j], domain@)) && week_spec(
                header_texts(tables@[k].headers@),
                table_views(tables@[k].rows@),
                domain@,
            ) == Err::<(Seq<EventView>, Seq<EventView>), WeekError>(e),
{
    let mut weeks: Vec<WeekEvents> = Vec::new();
    let mut k: usize = 0;
    while k < tables.len()
        invariant
            k <= tables@.len(),
            weeks_read(tables@.take(k as int), domain@, weeks@),
        decreases tables@.len() - k,
    {
        match week_plan_events(&tables[k], domain) {
            Ok(w) => {
                weeks.push(w);
            },
            Err(e) => {
                assert forall|j: int| 0 <= j < k implies #[trigger] week_reads(tables@[j], domain@) by {
                    assert(tables@.take(k as int)[j] == tables@[j]);
                }
                assert(!week_reads(tables@[k as int], domain@));
                return Err(e);
            },
        }
        k = k + 1;
        assert forall|j: int| 0 <= j < k implies #[trigger] tables@.take(k as int)[j] == tables@[j] by {}
    }
    assert(tables@.take(k as int) =~= tables@);
    assert forall|j: int| 0 <= j < tables@.len() implies #[trigger] week_reads(tables@[j], domain@) by {
        assert(weeks_read(tables@, domain@, weeks@));
    }
    Ok(build_feeds(&weeks, stamp))
}

} // verus!
