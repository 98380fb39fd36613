use uonetplan::cache::{CalendarCache, FeedStep};
use uonetplan::calendar::{build_calendar, build_event};
use uonetplan::exams::{group_tests, TestEntry, TestsResponse};
use uonetplan::session::{apply_refresh, first_line, seed_cookie, AuthInfo, Group, Host, RefreshError};
use uonetplan::week::{ScheduleEvent, Organizer, WeekPlanData, WeekPlanHeader};

fn s(x: &str) -> String {
    x.to_string()
}

fn auth() -> AuthInfo {
    let mut a = Group::One.initial_auth();
    a.cookie = s("old");
    a
}

#[test]
fn refresh_commits_live_cookie() {
    let mut a = auth();
    let r = apply_refresh(&mut a, Some("EfebSsoCookie=fresh; path=/; HttpOnly"));
    assert_eq!(r, Ok(Some(s("fresh"))));
    assert_eq!(a.cookie, "fresh");
    assert_eq!(a.student_id, 4033);
}

#[test]
fn refresh_with_dead_cookie_commits_nothing() {
    let mut a = auth();
    let r = apply_refresh(&mut a, Some("other=1; EfebSsoCookie=null"));
    assert_eq!(r, Err(RefreshError::DeadCredential));
    assert_eq!(a.cookie, "old");
}

#[test]
fn refresh_without_header_is_missing_cookie() {
    let mut a = auth();
    assert_eq!(apply_refresh(&mut a, None), Err(RefreshError::MissingCookie));
    assert_eq!(a.cookie, "old");
}

#[test]
fn refresh_without_session_cookie_changes_nothing() {
    let mut a = auth();
    assert_eq!(apply_refresh(&mut a, Some("other=1")), Ok(None));
    assert_eq!(a.cookie, "old");
}

#[test]
fn stored_cookie_is_first_line() {
    assert_eq!(first_line("abc\r\ndef"), Some(s("abc")));
    assert_eq!(first_line("abc"), Some(s("abc")));
    assert_eq!(first_line(""), None);
    let mut a = auth();
    assert!(!seed_cookie(&mut a, ""));
    assert_eq!(a.cookie, "old");
    assert!(seed_cookie(&mut a, "xyz\n"));
    assert_eq!(a.cookie, "xyz");
}

#[test]
fn groups_and_hosts() {
    let two = Group::Two.initial_auth();
    assert_eq!(two.student_id, 4040);
    assert_eq!(two.register_id, 1403);
    assert_eq!(two.school_year, 2022);
    assert_eq!(AuthInfo::default().school_year, 2022);
    assert_eq!(Host::UonetPlus.name(), "uonetplus.vulcan.net.pl");
    assert_eq!(Host::UonetPlusUczen.name(), "uonetplus-uczen.vulcan.net.pl");
}

#[test]
fn cache_serves_within_five_minutes() {
    let mut c = CalendarCache::default();
    assert!(matches!(c.next_step(1000, false), FeedStep::Rebuild));
    let got = c.store(s("REG"), s("REP"), 1000, true);
    assert_eq!(got, "REP");
    assert!(c.is_valid(1000));
    assert!(matches!(c.next_step(1000, false), FeedStep::Serve(f) if f == "REG"));
    assert!(matches!(c.next_step(1300, true), FeedStep::Serve(f) if f == "REP"));
    assert!(matches!(c.next_step(1301, true), FeedStep::Rebuild));
}

#[test]
fn second_caller_after_rebuild_is_served() {
    let mut c = CalendarCache::default();
    assert!(matches!(c.next_step(50, true), FeedStep::Rebuild));
    c.store(s("R"), s("Z"), 60, true);
    assert!(matches!(c.next_step(61, true), FeedStep::Serve(f) if f == "Z"));
    assert!(matches!(c.next_step(61, false), FeedStep::Serve(f) if f == "R"));
}

fn entry(name: &str, url: &str) -> TestEntry {
    TestEntry { name: s(name), url: s(url) }
}

#[test]
fn no_tests_gives_message() {
    match group_tests(&vec![]) {
        Ok(TestsResponse::Failure(m)) => assert_eq!(m, "You don't have any tests."),
        _ => panic!("expected the no-tests message"),
    }
}

#[test]
fn tests_are_grouped_into_two_days() {
    let entries = vec![
        entry("Matematyka 12.09 Sprawdzian: działy 1-3", "12.09"),
        entry("Fizyka 12.09 Kartkówka: ruch", "12.09"),
        entry("Chemia 13.09 Sprawdzian: wiązania", "13.09"),
        entry("Biologia 14.09 Kartkówka: komórka", "14.09"),
    ];
    match group_tests(&entries) {
        Ok(TestsResponse::Success(days)) => {
            assert_eq!(days.len(), 2);
            assert_eq!(days[0].date, "12.09");
            assert_eq!(days[0].tests, vec![s("Matematyka - Sprawdzian"), s("Fizyka - Kartkówka")]);
            assert_eq!(days[1].tests, vec![s("Chemia - Sprawdzian")]);
        }
        _ => panic!("expected grouped tests"),
    }
}

#[test]
fn test_label_without_date_is_malformed() {
    assert!(group_tests(&vec![entry("Matematyka", "12.09")]).is_err());
}

#[test]
fn event_carries_calendar_properties() {
    let ev = ScheduleEvent {
        start: s("20220912T080000"),
        end: s("20220912T084500"),
        subject: s("Matematyka"),
        room: Some(s("12")),
        organizer: Some(Organizer { name: s("Kowalski Jan"), email: s("kowalski.jan@szkola.pl") }),
        cancelled: true,
        replacement: false,
        notes: Some(s("kartkówka")),
    };
    let text = build_event(&ev, "20220901T000000").to_string();
    assert!(text.contains("UID:20220912T080000"));
    assert!(text.contains("DTSTAMP:20220901T000000"));
    assert!(text.contains("ORGANIZER;CN=\"Kowalski Jan\":MAILTO:kowalski.jan@szkola.pl"));
    assert!(text.contains("SUMMARY:Matematyka"));
    assert!(text.contains("DTEND:20220912T084500"));
    assert!(text.contains("STATUS:CANCELLED"));
    assert!(text.contains("LOCATION:12"));
    assert!(text.contains("DESCRIPTION:kartkówka"));
}

#[test]
fn calendar_feeds_split_regular_and_replacements() {
    let week = WeekPlanData {
        date: s("2022-09-12"),
        headers: vec![WeekPlanHeader { text: s("Lekcja") }, WeekPlanHeader { text: s("Pon<br>12.09.2022") }],
        rows: vec![
            vec![s("1      08:00      08:45"), s("<div><span>Matematyka</span><span>12</span></div>")],
            vec![s("2      08:50      09:35"), s("<div><span class=\"x-treelabel-zas\">Chemia</span><span>3</span></div>")],
        ],
    };
    let (regular, replacements) = build_calendar(&vec![week], "szkola.pl", "20220901T000000").unwrap();
    assert!(regular.starts_with("BEGIN:VCALENDAR"));
    assert!(regular.contains("SUMMARY:Matematyka"));
    assert!(!regular.contains("SUMMARY:Chemia"));
    assert!(replacements.contains("SUMMARY:Chemia"));
    assert!(replacements.contains("DTSTART:20220912T085000"));
}

#[test]
fn week_starts_are_consecutive_mondays() {
    let starts = uonetplan::dates::week_starts(2022, 37).unwrap();
    assert_eq!(
        starts,
        vec![s("2022-09-12T00:00:00"), s("2022-09-19T00:00:00"), s("2022-09-26T00:00:00")]
    );
    assert_eq!(uonetplan::dates::week_starts(2022, 60), None);
}

#[test]
fn day_start_is_zero_padded() {
    assert_eq!(uonetplan::dates::day_start_text((987, 3, 5)), Some(s("0987-03-05T00:00:00")));
    assert_eq!(uonetplan::dates::day_start_text((10000, 1, 1)), None);
}

#[test]
fn week_starts_roll_into_next_year() {
    assert_eq!(
        uonetplan::dates::week_starts(2022, 52).unwrap(),
        vec![s("2022-12-26T00:00:00"), s("2023-01-02T00:00:00"), s("2023-01-09T00:00:00")]
    );
    assert_eq!(
        uonetplan::dates::week_starts(2020, 52).unwrap(),
        vec![s("2020-12-21T00:00:00"), s("2020-12-28T00:00:00"), s("2021-01-04T00:00:00")]
    );
    assert_eq!(uonetplan::dates::week_starts(i32::MIN, 1), None);
    assert_eq!(uonetplan::dates::week_starts(2022, 0), None);
}

#[test]
fn cookie_header_carries_identity() {
    let mut a = Group::Two.initial_auth();
    a.cookie = s("abc");
    assert_eq!(
        uonetplan::session::cookie_header(&a),
        "EfebSsoCookie=abc; idBiezacyUczen=4040; idBiezacyDziennik=1403; biezacyRokSzkolny=2022"
    );
    a.student_id = 0;
    a.register_id = 4294967295;
    assert!(uonetplan::session::cookie_header(&a).contains("idBiezacyUczen=0; idBiezacyDziennik=4294967295;"));
}

#[test]
fn tests_go_to_their_own_date() {
    let entries = vec![
        entry("Matematyka 12.09 Sprawdzian: działy 1-3", "12.09"),
        entry("Chemia 13.09 Sprawdzian: wiązania", "13.09"),
        entry("Fizyka 12.09 Kartkówka: ruch", "12.09"),
    ];
    match group_tests(&entries) {
        Ok(TestsResponse::Success(days)) => {
            assert_eq!(days.len(), 2);
            assert_eq!(days[0].tests, vec![s("Matematyka - Sprawdzian"), s("Fizyka - Kartkówka")]);
            assert_eq!(days[1].tests, vec![s("Chemia - Sprawdzian")]);
        }
        _ => panic!("expected grouped tests"),
    }
}

#[test]
fn refresh_reads_trimmed_cookie_pieces() {
    let mut a = auth();
    let r = apply_refresh(&mut a, Some(" ;  ; noequals; EfebSsoCookie = spaced ; path=/"));
    assert_eq!(r, Ok(Some(s("spaced"))));
    assert_eq!(a.cookie, "spaced");
}
