use uonetplan::markup::{MarkupElement, MarkupNode};
use uonetplan::plan::{extract_plan, no_lessons, parse_index, plan_from_parsed, PlanError};
use uonetplan::text::{chars_of, find, split};
use uonetplan::week::{
    event_from_cell, organizer_of, week_plan_events, WeekError, WeekPlanData, WeekPlanHeader,
};

const HOUR: &str = "1      08:00      08:45";
const HEADER: &str = "Poniedziałek<br>12.09.2022";
const CELL: &str = "<div><span class=\"x-treelabel-ppl\">Matematyka</span><span>12</span><span>Jan Kowalski</span></div>";

fn s(x: &str) -> String {
    x.to_string()
}

fn text(x: &str) -> MarkupNode {
    MarkupNode::Text(s(x))
}

fn element(name: &str, classes: &[&str], children: Vec<MarkupNode>) -> MarkupNode {
    MarkupNode::Element(MarkupElement {
        name: s(name),
        classes: classes.iter().map(|c| s(c)).collect(),
        children,
    })
}

#[test]
fn split_cuts_at_every_separator() {
    let parts = split(&chars_of("a.b..c"), &['.']);
    let parts: Vec<String> = parts.iter().map(|p| p.iter().collect()).collect();
    assert_eq!(parts, vec![s("a"), s("b"), s(""), s("c")]);
}

#[test]
fn find_gives_leftmost_position() {
    assert_eq!(find(&chars_of("ab, sala cd, sala e"), &chars_of(", sala ")), Some(2));
    assert_eq!(find(&chars_of("abc"), &chars_of("x")), None);
}

#[test]
fn cell_gives_timed_lesson() {
    let header = s(HEADER);
    let tree = vec![element(
        "div",
        &[],
        vec![
            element("span", &["x-treelabel-ppl"], vec![text("Matematyka")]),
            element("span", &[], vec![text("12")]),
            element("span", &[], vec![text("Jan Kowalski")]),
        ],
    )];
    let ev = event_from_cell(HOUR, Some(&header), CELL, Some(&tree), "szkola.pl").unwrap().unwrap();
    assert_eq!(ev.start, "20220912T080000");
    assert_eq!(ev.end, "20220912T084500");
    assert!(ev.start < ev.end);
    assert_eq!(ev.subject, "Matematyka");
    assert_eq!(ev.room.as_deref(), Some("12"));
    let org = ev.organizer.unwrap();
    assert_eq!(org.name, "Kowalski Jan");
    assert_eq!(org.email, "kowalski.jan@szkola.pl");
    assert!(!ev.cancelled);
    assert!(!ev.replacement);
    assert_eq!(ev.notes, None);
}

#[test]
fn room_falls_back_to_third_child_and_notes_are_trimmed() {
    let header = s(HEADER);
    let tree = vec![element(
        "div",
        &[],
        vec![
            element("span", &[], vec![text("Fizyka")]),
            element("span", &[], vec![]),
            element("span", &[], vec![text("7")]),
            element("span", &[], vec![text("Anna Nowak")]),
            text("(kartkówka)"),
        ],
    )];
    let ev = event_from_cell(HOUR, Some(&header), "<div><span>Fizyka</span></div>", Some(&tree), "x.pl")
        .unwrap()
        .unwrap();
    assert_eq!(ev.room.as_deref(), Some("7"));
    assert_eq!(ev.organizer.unwrap().name, "Nowak Anna");
    assert_eq!(ev.notes.as_deref(), Some("kartkówka"));
}

#[test]
fn markers_set_cancelled_and_replacement() {
    let header = s(HEADER);
    let tree = vec![element(
        "div",
        &[],
        vec![element("span", &[], vec![text("Fizyka")]), element("span", &[], vec![text("7")])],
    )];
    let cancelled = "<div><span class=\"x-treelabel-inv\">Fizyka</span></div>";
    let ev = event_from_cell(HOUR, Some(&header), cancelled, Some(&tree), "x.pl").unwrap().unwrap();
    assert!(ev.cancelled);
    assert!(!ev.replacement);
    let replaced = "<div><span class=\"x-treelabel-zas\">Fizyka</span></div>";
    let ev = event_from_cell(HOUR, Some(&header), replaced, Some(&tree), "x.pl").unwrap().unwrap();
    assert!(!ev.cancelled);
    assert!(ev.replacement);
    let both = "<div><span class=\"x-treelabel-inv x-treelabel-zas\">Fizyka</span></div>";
    let ev = event_from_cell(HOUR, Some(&header), both, Some(&tree), "x.pl").unwrap().unwrap();
    assert!(ev.cancelled);
    assert!(ev.replacement);
}

#[test]
fn placeholder_cell_is_skipped() {
    let header = s(HEADER);
    let r = event_from_cell(HOUR, Some(&header), "<div><span>Praktyka zawodowa</span></div>", None, "x.pl");
    assert!(matches!(r, Ok(None)));
}

#[test]
fn cell_errors() {
    let header = s(HEADER);
    let tree = vec![element("div", &[], vec![element("span", &[], vec![text("A")])])];
    assert_eq!(event_from_cell(HOUR, None, CELL, Some(&tree), "x").err(), Some(WeekError::MissingHeader));
    let bad_date = s("Pon>12.09");
    assert_eq!(event_from_cell(HOUR, Some(&bad_date), CELL, Some(&tree), "x").err(), Some(WeekError::MalformedDate));
    assert_eq!(event_from_cell("08:00", Some(&header), CELL, Some(&tree), "x").err(), Some(WeekError::MalformedHour));
    assert_eq!(event_from_cell(HOUR, Some(&header), CELL, None, "x").err(), Some(WeekError::Unparsable));
    assert_eq!(event_from_cell(HOUR, Some(&header), CELL, Some(&tree), "x").err(), Some(WeekError::Malformed));
}

#[test]
fn organizer_is_reversed_lowercased_and_folded() {
    let org = organizer_of(&chars_of("Łukasz Żółć"), "szkola.pl");
    assert_eq!(org.name, "Żółć Łukasz");
    assert_eq!(org.email, "zolc.lukasz@szkola.pl");
}

#[test]
fn week_table_splits_streams() {
    let data = WeekPlanData {
        date: s("2022-09-12"),
        headers: vec![
            WeekPlanHeader { text: s("Lekcja") },
            WeekPlanHeader { text: s(HEADER) },
            WeekPlanHeader { text: s("Wtorek<br>13.09.2022") },
        ],
        rows: vec![vec![
            s(HOUR),
            s(CELL),
            s("<div><span class=\"x-treelabel-zas\">Chemia</span><span>3</span></div>"),
        ]],
    };
    let w = week_plan_events(&data, "szkola.pl").unwrap();
    assert_eq!(w.regular.len(), 1);
    assert_eq!(w.replacements.len(), 1);
    assert_eq!(w.regular[0].subject, "Matematyka");
    assert_eq!(w.replacements[0].subject, "Chemia");
    assert_eq!(w.replacements[0].start, "20220913T080000");
}

#[test]
fn struck_markup_is_read_from_strings() {
    let frags = vec![
        s("<div class=\"dayHeader\">Piątek</div>"),
        s("<span>3.</span><span class=\"striked\">Fizyka, sala 9</span>"),
    ];
    let plan = extract_plan(&frags, 8).unwrap();
    assert_eq!(plan.header.as_deref(), Some("Piątek"));
    assert_eq!(plan.lessons[0].index, 3);
    assert!(plan.lessons[0].cancelled);
    assert_eq!(plan.lessons[0].room.as_deref(), Some("9"));
}

#[test]
fn index_parses_like_usize() {
    assert_eq!(parse_index(&chars_of("12")), Some(12));
    assert_eq!(parse_index(&chars_of("+3")), Some(3));
    assert_eq!(parse_index(&chars_of("")), None);
    assert_eq!(parse_index(&chars_of("1a")), None);
    assert_eq!(parse_index(&chars_of("99999999999999999999999")), None);
}

fn header_fragment(label: &str) -> Option<Vec<MarkupNode>> {
    Some(vec![element("div", &["dayHeader"], vec![text(label)])])
}

fn lesson_fragment(n: usize, subject: &str) -> Option<Vec<MarkupNode>> {
    Some(vec![
        element("span", &[], vec![text(&format!("{n}."))]),
        element("span", &[], vec![text(&format!("{subject}, sala {n}"))]),
    ])
}

fn two_days() -> Vec<Option<Vec<MarkupNode>>> {
    let mut v = vec![header_fragment("Poniedziałek")];
    for n in 1..=5 {
        v.push(lesson_fragment(n, "Pierwszy"));
    }
    v.push(header_fragment("Wtorek"));
    for n in 1..=6 {
        v.push(lesson_fragment(n, "Drugi"));
    }
    v
}

#[test]
fn plan_before_three_shows_first_day() {
    let plan = plan_from_parsed(&two_days(), 14).unwrap();
    assert_eq!(plan.header.as_deref(), Some("Poniedziałek"));
    assert_eq!(plan.lessons.len(), 5);
    assert!(plan.lessons.iter().all(|l| l.name == "Pierwszy"));
    assert_eq!(plan.lessons[2].index, 3);
    assert_eq!(plan.lessons[2].room.as_deref(), Some("3"));
}

#[test]
fn plan_after_three_shows_second_day() {
    let frags = two_days();
    assert!(frags.len() > 11);
    let plan = plan_from_parsed(&frags, 15).unwrap();
    assert_eq!(plan.header.as_deref(), Some("Wtorek"));
    assert_eq!(plan.lessons.len(), 6);
    assert!(plan.lessons.iter().all(|l| l.name == "Drugi"));
}

#[test]
fn short_plan_after_three_shows_first_day() {
    let mut frags = two_days();
    frags.truncate(11);
    let plan = plan_from_parsed(&frags, 20).unwrap();
    assert_eq!(plan.header.as_deref(), Some("Poniedziałek"));
    assert_eq!(plan.lessons.len(), 5);
}

#[test]
fn struck_lesson_is_cancelled_and_note_is_read() {
    let frags = vec![
        header_fragment("Środa"),
        Some(vec![
            element("span", &[], vec![text("1.")]),
            element("span", &["striked"], vec![text("Biologia, sala 4")]),
            element("div", &["annotation"], vec![text("(zastępstwo - Anna Nowak)")]),
        ]),
        Some(vec![
            element("span", &[], vec![text("2.")]),
            text("Lekcja: Historia"),
            element("div", &["annotation"], vec![element("br", &[], vec![]), text("(zastępstwo - Anna Nowak)")]),
        ]),
    ];
    let plan = plan_from_parsed(&frags, 9).unwrap();
    assert!(plan.lessons[0].cancelled);
    assert_eq!(plan.lessons[0].replacement, None);
    assert_eq!(plan.lessons[1].name, "Historia");
    assert_eq!(plan.lessons[1].room, None);
    assert!(!plan.lessons[1].cancelled);
    assert_eq!(plan.lessons[1].replacement.as_deref(), Some("Anna Nowak"));
}

#[test]
fn plan_errors() {
    assert_eq!(plan_from_parsed(&vec![None], 9).err(), Some(PlanError::Unparsable));
    let only_breaks = vec![Some(vec![element("br", &[], vec![])])];
    assert_eq!(plan_from_parsed(&only_breaks, 9).err(), Some(PlanError::Malformed));
    let bad_index = vec![Some(vec![
        element("span", &[], vec![text("x.")]),
        element("span", &[], vec![text("Fizyka")]),
    ])];
    assert_eq!(plan_from_parsed(&bad_index, 9).err(), Some(PlanError::BadIndex));
}

#[test]
fn plan_from_markup_strings() {
    let frags = vec![
        s("<div class=\"dayHeader\">Czwartek</div>"),
        s("<span>1.</span><span>Chemia, sala 5</span>"),
    ];
    let plan = extract_plan(&frags, 8).unwrap();
    assert_eq!(plan.header.as_deref(), Some("Czwartek"));
    assert_eq!(plan.lessons.len(), 1);
    assert_eq!(plan.lessons[0].name, "Chemia");
    assert_eq!(plan.lessons[0].room.as_deref(), Some("5"));
}

#[test]
fn empty_widget_has_no_lessons() {
    let plan = no_lessons();
    assert_eq!(plan.header.as_deref(), Some("Brak lekcji."));
    assert!(plan.lessons.is_empty());
}
