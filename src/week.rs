use vstd::prelude::*;

use crate::markup::{
    element_first_text, first_child_text, node_text, parse_markup, parsed_markup, same_text,
    text_of, MarkupElement, MarkupNode,
};
use crate::text::{
    after_char, before_char, chars_of, contains, find, matches_at, slice, split, split_spec,
    string_of, views,
};

verus! {

/// Marker class of a cancelled lesson.
pub const CANCELLED_MARK: &'static str = "x-treelabel-inv";

/// Marker class of a replacement lesson.
pub const REPLACEMENT_MARK: &'static str = "x-treelabel-zas";

/// A label that names no lesson to schedule.
pub const PLACEHOLDER_LABEL: &'static str = "Praktyka zawodowa";

/// The one who leads a lesson: a display name and a mail address.
pub struct Organizer {
    pub name: String,
    pub email: String,
}

/// One timed lesson of the weekly table.
pub struct ScheduleEvent {
    pub start: String,
    pub end: String,
    pub subject: String,
    pub room: Option<String>,
    pub organizer: Option<Organizer>,
    pub cancelled: bool,
    pub replacement: bool,
    pub notes: Option<String>,
}

/// A lesson as plain character sequences.
pub struct EventView {
    pub start: Seq<char>,
    pub end: Seq<char>,
    pub subject: Seq<char>,
    pub room: Option<Seq<char>>,
    pub organizer: Option<(Seq<char>, Seq<char>)>,
    pub cancelled: bool,
    pub replacement: bool,
    pub notes: Option<Seq<char>>,
}

pub open spec fn opt_view(o: Option<String>) -> Option<Seq<char>> {
    match o {
        Some(s) => Some(s@),
        None => None,
    }
}

impl View for ScheduleEvent {
    type V = EventView;

    open spec fn view(&self) -> EventView {
        EventView {
            start: self.start@,
            end: self.end@,
            subject: self.subject@,
            room: opt_view(self.room),
            organizer: match self.organizer {
                Some(o) => Some((o.name@, o.email@)),
                None => None,
            },
            cancelled: self.cancelled,
            replacement: self.replacement,
            notes: opt_view(self.notes),
        }
    }
}

/// Why a week could not be read.
#[derive(PartialEq, Eq, Structural, Debug, Clone, Copy)]
pub enum WeekError {
    /// A column has no day header.
    MissingHeader,
    /// A day header holds no `day.month.year` date.
    MalformedDate,
    /// An hour label is too short to hold two times.
    MalformedHour,
    /// A cell's markup does not parse.
    Unparsable,
    /// A cell's markup lacks an expected element.
    Malformed,
}

/// `str::to_lowercase` of the text.
pub uninterp spec fn lower_of(s: Seq<char>) -> Seq<char>;

/// unidecode's ASCII transliteration of the text.
pub uninterp spec fn folded_of(s: Seq<char>) -> Seq<char>;

/// Relies on std's `str::to_lowercase`: the result depends on the text alone.
#[verifier::external_body]
fn lowercase(s: &str) -> (r: String)
    ensures
        r@ == lower_of(s@),
{
    s.to_lowercase()
}

/// Relies on unidecode::unidecode: the result depends on the text alone.
#[verifier::external_body]
fn ascii_fold(s: &str) -> (r: String)
    ensures
        r@ == folded_of(s@),
{
    unidecode::unidecode(s)
}

/// The date pieces of a day header: what follows its first `>`, cut at dots.
pub open spec fn date_parts(header: Seq<char>) -> Seq<Seq<char>> {
    split_spec(after_char(header, '>'), "."@)
}

/// The `HHMM00` clock part read from the hour label at `at`.
pub open spec fn clock(hour: Seq<char>, at: int) -> Seq<char> {
    hour.subrange(at, at + 2) + hour.subrange(at + 3, at + 5) + "00"@
}

/// The `YYYYMMDDTHHMM00` timestamp of a date and a clock position.
pub open spec fn stamp(parts: Seq<Seq<char>>, hour: Seq<char>, at: int) -> Seq<char> {
    parts[2] + parts[1] + parts[0] + "T"@ + clock(hour, at)
}

/// The display name of a cell: between its second `>` and the next `<`.
pub open spec fn cell_name(cell: Seq<char>) -> Seq<char> {
    before_char(after_char(after_char(cell, '>'), '>'), '<')
}

/// `s` with its pieces in reverse order.
pub open spec fn reversed(s: Seq<Seq<char>>) -> Seq<Seq<char>> {
    Seq::new(s.len(), |i: int| s[s.len() - 1 - i])
}

/// The pieces joined with single spaces.
pub open spec fn join_spaced(s: Seq<Seq<char>>) -> Seq<char>
    decreases s.len(),
{
    if s.len() == 0 {
        Seq::empty()
    } else if s.len() == 1 {
        s[0]
    } else {
        join_spaced(s.drop_last()) + " "@ + s.last()
    }
}

/// `s` with every space turned into a dot.
pub open spec fn dotted(s: Seq<char>) -> Seq<char> {
    s.map_values(|c: char| if c == ' ' { '.' } else { c })
}

/// A teacher written "First Last" as "Last First".
pub open spec fn display_name(teacher: Seq<char>) -> Seq<char> {
    join_spaced(reversed(split_spec(teacher, " "@)))
}

/// The mail address of the one named `name` under `domain`.
pub open spec fn mail_of(name: Seq<char>, domain: Seq<char>) -> Seq<char> {
    folded_of(dotted(lower_of(name))) + "@"@ + domain
}

/// What a cell's markup tree holds: room, teacher and notes, by position.
pub struct CellLayout {
    pub room: Option<Seq<char>>,
    pub teacher: Option<Seq<char>>,
    pub notes: Option<Seq<char>>,
}

/// The element at `i` among `nodes`, where that node is an element.
pub open spec fn element_at(nodes: Seq<MarkupNode>, i: int) -> Option<MarkupElement> {
    if 0 <= i < nodes.len() {
        match nodes[i] {
            MarkupNode::Element(e) => Some(e),
            _ => None,
        }
    } else {
        None
    }
}

/// Reads room, teacher and notes from a cell's top-level nodes: the room is
/// the first text of the second child of the first element, or of the third
/// where the second is empty; the teacher is the first text of the child
/// after the room's; the notes are the text of the last child.
pub open spec fn cell_layout(nodes: Seq<MarkupNode>) -> Result<CellLayout, WeekError> {
    match element_at(nodes, 0) {
        None => Err(WeekError::Malformed),
        Some(content) => {
            let kids = content.children@;
            match element_at(kids, 1) {
                None => Err(WeekError::Malformed),
                Some(second) => {
                    let shift: int = if second.children@.len() == 0 { 1 } else { 0 };
                    match element_at(kids, 1 + shift) {
                        None => Err(WeekError::Malformed),
                        Some(room_el) => {
                            let teacher_ok = match element_at(kids, 2 + shift) {
                                Some(t) => t.children@.len() == 0 || text_of(t.children@[0]) is Some,
                                None => true,
                            };
                            let notes = if kids.len() > 0 { text_of(kids.last()) } else { None };
                            if !teacher_ok {
                                Err(WeekError::Malformed)
                            } else if notes is Some && notes->0.len() < 2 {
                                Err(WeekError::Malformed)
                            } else {
                                Ok(CellLayout {
                                    room: first_child_text(room_el),
                                    teacher: match element_at(kids, 2 + shift) {
                                        Some(t) => first_child_text(t),
                                        None => None,
                                    },
                                    notes: match notes {
                                        Some(n) => Some(n.subrange(1, n.len() - 1)),
                                        None => None,
                                    },
                                })
                            }
                        },
                    }
                },
            }
        },
    }
}

/// The lesson of one non-empty table cell, or `None` for the placeholder
/// label: `hour` is the row's hour label, `header` the column's day header,
/// `parsed` what the cell's markup parses to, `domain` the mail domain.
pub open spec fn cell_event(
    hour: Seq<char>,
    header: Option<Seq<char>>,
    cell: Seq<char>,
    parsed: Option<Seq<MarkupNode>>,
    domain: Seq<char>,
) -> Result<Option<EventView>, WeekError> {
    match header {
        None => Err(WeekError::MissingHeader),
        Some(h) => {
            let parts = date_parts(h);
            if parts.len() < 3 {
                Err(WeekError::MalformedDate)
            } else if hour.len() < 23 {
                Err(WeekError::MalformedHour)
            } else if cell_name(cell) == PLACEHOLDER_LABEL@ {
                Ok(None)
            } else {
                match parsed {
                    None => Err(WeekError::Unparsable),
                    Some(nodes) => match cell_layout(nodes) {
                        Err(e) => Err(e),
                        Ok(layout) => Ok(
                            Some(
                                EventView {
                                    start: stamp(parts, hour, 7),
                                    end: stamp(parts, hour, 18),
                                    subject: cell_name(cell),
                                    room: layout.room,
                                    organizer: match layout.teacher {
                                        Some(t) => Some(
                                            (
                                                display_name(t),
                                                mail_of(display_name(t), domain),
                                            ),
                                        ),
                                        None => None,
                                    },
                                    cancelled: crate::text::contains_spec(cell, CANCELLED_MARK@),
                                    replacement: crate::text::contains_spec(
                                        cell,
                                        REPLACEMENT_MARK@,
                                    ),
                                    notes: layout.notes,
                                },
                            ),
                        ),
                    },
                }
            }
        },
    }
}


/// Appends the characters of `s` to `v`.
pub fn push_all(v: &mut Vec<char>, s: &[char])
    ensures
        final(v)@ == old(v)@ + s@,
{
    let mut k: usize = 0;
    while k < s.len()
        invariant
            k <= s@.len(),
            v@ == old(v)@ + s@.take(k as int),
        decreases s@.len() - k,
    {
        v.push(s[k]);
        k = k + 1;
        assert(v@ =~= old(v)@ + s@.take(k as int));
    }
    assert(s@.take(s@.len() as int) =~= s@);
}

/// A teacher written "First Last" as "Last First".
pub fn display_name_of(teacher: &[char]) -> (r: Vec<char>)
    ensures
        r@ == display_name(teacher@),
{
    let space: [char; 1] = [' '];
    let pieces = split(teacher, space.as_slice());
    proof {
        assert(space@ =~= " "@) by {
            reveal_strlit(" ");
        }
        assert(views(pieces@) == split_spec(teacher@, " "@));
    }
    let ghost rev = reversed(views(pieces@));
    let n = pieces.len();
    let mut r: Vec<char> = Vec::new();
    let mut k: usize = 0;
    while k < n
        invariant
            n == pieces@.len(),
            rev == reversed(views(pieces@)),
            rev.len() == n,
            k <= n,
            r@ == join_spaced(rev.take(k as int)),
        decreases n - k,
    {
        proof {
            assert(rev.take(k + 1).drop_last() =~= rev.take(k as int));
            assert(rev.take(k + 1).last() == rev[k as int]);
            assert(rev[k as int] == pieces@[n - 1 - k]@);
        }
        if k > 0 {
            r.push(' ');
            proof {
                reveal_strlit(" ");
                assert(r@ =~= join_spaced(rev.take(k as int)) + " "@);
            }
        } else {
            assert(r@ =~= Seq::<char>::empty());
        }
        push_all(&mut r, pieces[n - 1 - k].as_slice());
        k = k + 1;
        proof {
            if k == 1 {
                assert(rev.take(1) =~= seq![rev[0]]);
                assert(r@ =~= rev[0]);
            }
        }
    }
    assert(rev.take(n as int) =~= rev);
    r
}

/// `s` with every space turned into a dot.
pub fn dots(s: &[char]) -> (r: Vec<char>)
    ensures
        r@ == dotted(s@),
{
    let mut r: Vec<char> = Vec::new();
    let mut k: usize = 0;
    while k < s.len()
        invariant
            k <= s@.len(),
            r@ == dotted(s@.take(k as int)),
        decreases s@.len() - k,
    {
        if s[k] == ' ' {
            r.push('.');
        } else {
            r.push(s[k]);
        }
        k = k + 1;
        assert(r@ =~= dotted(s@.take(k as int)));
    }
    assert(s@.take(s@.len() as int) =~= s@);
    r
}

/// The organizer of a lesson whose teacher is written `teacher`, with an
/// address under `domain`.
pub fn organizer_of(teacher: &[char], domain: &str) -> (r: Organizer)
    ensures
        r.name@ == display_name(teacher@),
        r.email@ == mail_of(display_name(teacher@), domain@),
{
    let name = display_name_of(teacher);
    let name_text = string_of(name.as_slice());
    let lower = lowercase(name_text.as_str());
    let lower_chars = chars_of(lower.as_str());
    let dotted_chars = dots(lower_chars.as_slice());
    let dotted_text = string_of(dotted_chars.as_slice());
    let folded = ascii_fold(dotted_text.as_str());
    let mut email = chars_of(folded.as_str());
    email.push('@');
    let domain_chars = chars_of(domain);
    push_all(&mut email, domain_chars.as_slice());
    proof {
        reveal_strlit("@");
        assert(email@ =~= mail_of(display_name(teacher@), domain@));
    }
    Organizer { name: name_text, email: string_of(email.as_slice()) }
}


/// The element at `i` among `nodes`, where that node is an element.
pub fn element_at_exec(nodes: &Vec<MarkupNode>, i: usize) -> (r: Option<&MarkupElement>)
    ensures
        match r {
            Some(e) => element_at(nodes@, i as int) == Some(*e),
            None => element_at(nodes@, i as int) is None,
        },
{
    if i < nodes.len() {
        match &nodes[i] {
            MarkupNode::Element(e) => Some(e),
            _ => None,
        }
    } else {
        None
    }
}

pub open spec fn opt_text(o: Option<&String>) -> Option<Seq<char>> {
    match o {
        Some(s) => Some(s@),
        None => None,
    }
}

/// Room, teacher and notes of a cell's top-level nodes.
pub fn read_layout(nodes: &Vec<MarkupNode>) -> (r: Result<
    (Option<String>, Option<String>, Option<String>),
    WeekError,
>)
    ensures
        match r {
            Ok((room, teacher, notes)) => cell_layout(nodes@) == Ok::<CellLayout, WeekError>(
                CellLayout {
                    room: opt_view(room),
                    teacher: opt_view(teacher),
                    notes: opt_view(notes),
                },
            ),
            Err(e) => cell_layout(nodes@) == Err::<CellLayout, WeekError>(e),
        },
{
    let content = match element_at_exec(nodes, 0) {
        Some(c) => c,
        None => {
            return Err(WeekError::Malformed);
        },
    };
    let kids = &content.children;
    let second = match element_at_exec(kids, 1) {
        Some(e) => e,
        None => {
            return Err(WeekError::Malformed);
        },
    };
    let shift: usize = if second.children.len() == 0 { 1 } else { 0 };
    let room_el = match element_at_exec(kids, 1 + shift) {
        Some(e) => e,
        None => {
            return Err(WeekError::Malformed);
        },
    };
    let teacher: Option<String> = match element_at_exec(kids, 2 + shift) {
        Some(t) => {
            if t.children.len() == 0 {
                None
            } else {
                match node_text(&t.children[0]) {
                    Some(x) => Some(x.clone()),
                    None => {
                        return Err(WeekError::Malformed);
                    },
                }
            }
        },
        None => None,
    };
    let notes: Option<String> = if kids.len() > 0 {
        match node_text(&kids[kids.len() - 1]) {
            Some(n) => {
                let cs = chars_of(n.as_str());
                if cs.len() < 2 {
                    return Err(WeekError::Malformed);
                }
                let inner = slice(cs.as_slice(), 1, cs.len() - 1);
                Some(string_of(inner.as_slice()))
            },
            None => None,
        }
    } else {
        None
    };
    let room: Option<String> = match element_first_text(room_el) {
        Some(t) => Some(t.clone()),
        None => None,
    };
    proof {
        let l = CellLayout { room: opt_view(room), teacher: opt_view(teacher), notes: opt_view(notes) };
        assert(cell_layout(nodes@) == Ok::<CellLayout, WeekError>(l));
    }
    Ok((room, teacher, notes))
}

/// What follows the first `c` in `s`; empty where `s` holds no `c`.
pub fn after(s: &[char], c: char) -> (r: Vec<char>)
    ensures
        r@ == after_char(s@, c),
{
    let p: [char; 1] = [c];
    let ps = p.as_slice();
    assert(ps@ =~= seq![c]);
    match find(s, ps) {
        Some(i) => {
            assert(matches_at(s@, ps@, i as int));
            assert(i + 1 <= s@.len());
            assert(s@.len() == s.len());
            slice(s, i + 1, s.len())
        },
        None => Vec::new(),
    }
}

/// The prefix of `s` before the first `c`; all of `s` where it holds no `c`.
pub fn before(s: &[char], c: char) -> (r: Vec<char>)
    ensures
        r@ == before_char(s@, c),
{
    let p: [char; 1] = [c];
    let ps = p.as_slice();
    assert(ps@ =~= seq![c]);
    match find(s, ps) {
        Some(i) => slice(s, 0, i),
        None => slice(s, 0, s.len()),
    }
}

/// The display name of a cell: between its second `>` and the next `<`.
pub fn name_of_cell(cell: &[char]) -> (r: Vec<char>)
    ensures
        r@ == cell_name(cell@),
{
    let a = after(cell, '>');
    let b = after(a.as_slice(), '>');
    before(b.as_slice(), '<')
}

/// The `YYYYMMDDTHHMM00` timestamp of the date pieces and the hour label
/// position `at`.
fn stamp_of(parts: &Vec<Vec<char>>, hour: &[char], at: usize) -> (r: String)
    requires
        parts@.len() >= 3,
        at + 5 <= hour@.len(),
    ensures
        r@ == stamp(views(parts@), hour@, at as int),
{
    let mut v: Vec<char> = Vec::new();
    push_all(&mut v, parts[2].as_slice());
    push_all(&mut v, parts[1].as_slice());
    push_all(&mut v, parts[0].as_slice());
    v.push('T');
    v.push(hour[at]);
    v.push(hour[at + 1]);
    v.push(hour[at + 3]);
    v.push(hour[at + 4]);
    v.push('0');
    v.push('0');
    proof {
        reveal_strlit("T");
        reveal_strlit("00");
        assert(v@ =~= stamp(views(parts@), hour@, at as int));
    }
    string_of(v.as_slice())
}

pub open spec fn cell_result_view(r: Result<Option<ScheduleEvent>, WeekError>) -> Result<
    Option<EventView>,
    WeekError,
> {
    match r {
        Ok(Some(e)) => Ok(Some(e@)),
        Ok(None) => Ok(None),
        Err(x) => Err(x),
    }
}

pub open spec fn opt_nodes(o: Option<&Vec<MarkupNode>>) -> Option<Seq<MarkupNode>> {
    match o {
        Some(v) => Some(v@),
        None => None,
    }
}

/// The lesson of one non-empty table cell, from the row's hour label, the
/// column's day header, the cell, what its markup parses to and the mail
/// domain; `None` for the placeholder label.
pub fn event_from_cell(
    hour: &str,
    header: Option<&String>,
    cell: &str,
    parsed: Option<&Vec<MarkupNode>>,
    domain: &str,
) -> (r: Result<Option<ScheduleEvent>, WeekError>)
    ensures
        cell_result_view(r) == cell_event(hour@, opt_text(header), cell@, opt_nodes(parsed), domain@),
{
    let h = match header {
        Some(h) => h,
        None => {
            return Err(WeekError::MissingHeader);
        },
    };
    let hc = chars_of(h.as_str());
    let date = after(hc.as_slice(), '>');
    let dot: [char; 1] = ['.'];
    let parts = split(date.as_slice(), dot.as_slice());
    proof {
        reveal_strlit(".");
        assert(dot@ =~= "."@);
    }
    if parts.len() < 3 {
        return Err(WeekError::MalformedDate);
    }
    let hour_chars = chars_of(hour);
    if hour_chars.len() < 23 {
        return Err(WeekError::MalformedHour);
    }
    let cell_chars = chars_of(cell);
    let name = name_of_cell(cell_chars.as_slice());
    let name_text = string_of(name.as_slice());
    if same_text(name_text.as_str(), PLACEHOLDER_LABEL) {
        return Ok(None);
    }
    let nodes = match parsed {
        Some(n) => n,
        None => {
            return Err(WeekError::Unparsable);
        },
    };
    let (room, teacher, notes) = match read_layout(nodes) {
        Ok(l) => l,
        Err(e) => {
            return Err(e);
        },
    };
    let organizer = match teacher {
        Some(t) => {
            let tc = chars_of(t.as_str());
            Some(organizer_of(tc.as_slice(), domain))
        },
        None => None,
    };
    let cancel_mark = chars_of(CANCELLED_MARK);
    let replace_mark = chars_of(REPLACEMENT_MARK);
    let cancelled = contains(cell_chars.as_slice(), cancel_mark.as_slice());
    let replacement = contains(cell_chars.as_slice(), replace_mark.as_slice());
    let start = stamp_of(&parts, hour_chars.as_slice(), 7);
    let end = stamp_of(&parts, hour_chars.as_slice(), 18);
    Ok(
        Some(
            ScheduleEvent {
                start,
                end,
                subject: name_text,
                room,
                organizer,
                cancelled,
                replacement,
                notes,
            },
        ),
    )
}


/// The regular and the replacement lessons of a week, in table order.
pub struct WeekEvents {
    pub regular: Vec<ScheduleEvent>,
    pub replacements: Vec<ScheduleEvent>,
}

pub open spec fn events_view(v: Seq<ScheduleEvent>) -> Seq<EventView> {
    v.map_values(|e: ScheduleEvent| e@)
}

/// The day header of column `c`, if the table has one.
pub open spec fn header_at(headers: Seq<Seq<char>>, c: int) -> Option<Seq<char>> {
    if 0 <= c < headers.len() {
        Some(headers[c])
    } else {
        None
    }
}

/// Adds one lesson to the stream its replacement flag routes it to.
pub open spec fn route(
    acc: (Seq<EventView>, Seq<EventView>),
    e: EventView,
) -> (Seq<EventView>, Seq<EventView>) {
    if e.replacement {
        (acc.0, acc.1.push(e))
    } else {
        (acc.0.push(e), acc.1)
    }
}

/// The lessons of `row` from column `c` on, added to `acc`: column 0 holds
/// the hour label and empty cells hold no lesson.
pub open spec fn row_from(
    headers: Seq<Seq<char>>,
    row: Seq<Seq<char>>,
    domain: Seq<char>,
    c: int,
    acc: (Seq<EventView>, Seq<EventView>),
) -> Result<(Seq<EventView>, Seq<EventView>), WeekError>
    decreases row.len() - c,
{
    if c < 0 || c >= row.len() {
        Ok(acc)
    } else if c == 0 || row[c].len() == 0 {
        row_from(headers, row, domain, c + 1, acc)
    } else {
        match cell_event(row[0], header_at(headers, c), row[c], parsed_markup(row[c]), domain) {
            Err(e) => Err(e),
            Ok(None) => row_from(headers, row, domain, c + 1, acc),
            Ok(Some(e)) => row_from(headers, row, domain, c + 1, route(acc, e)),
        }
    }
}

/// The lessons of the rows from `r` on, added to `acc`.
pub open spec fn rows_from(
    headers: Seq<Seq<char>>,
    rows: Seq<Seq<Seq<char>>>,
    domain: Seq<char>,
    r: int,
    acc: (Seq<EventView>, Seq<EventView>),
) -> Result<(Seq<EventView>, Seq<EventView>), WeekError>
    decreases rows.len() - r,
{
    if r < 0 || r >= rows.len() {
        Ok(acc)
    } else {
        match row_from(headers, rows[r], domain, 0, acc) {
            Err(e) => Err(e),
            Ok(next) => rows_from(headers, rows, domain, r + 1, next),
        }
    }
}

/// The lessons of a weekly table: regular ones and replacements, in row
/// order and, within a row, in column order.
pub open spec fn week_spec(
    headers: Seq<Seq<char>>,
    rows: Seq<Seq<Seq<char>>>,
    domain: Seq<char>,
) -> Result<(Seq<EventView>, Seq<EventView>), WeekError> {
    rows_from(headers, rows, domain, 0, (Seq::empty(), Seq::empty()))
}

pub open spec fn string_views(v: Seq<String>) -> Seq<Seq<char>> {
    v.map_values(|s: String| s@)
}

pub open spec fn table_views(v: Seq<Vec<String>>) -> Seq<Seq<Seq<char>>> {
    v.map_values(|row: Vec<String>| string_views(row@))
}

fn row_events(
    headers: &Vec<String>,
    row: &Vec<String>,
    domain: &str,
    regular: &mut Vec<ScheduleEvent>,
    replacements: &mut Vec<ScheduleEvent>,
) -> (r: Result<(), WeekError>)
    ensures
        row_from(
            string_views(headers@),
            string_views(row@),
            domain@,
            0,
            (events_view(old(regular)@), events_view(old(replacements)@)),
        ) == match r {
            Ok(()) => Ok((events_view(final(regular)@), events_view(final(replacements)@))),
            Err(e) => Err(e),
        },
{
    let ghost hv = string_views(headers@);
    let ghost rv = string_views(row@);
    let ghost start = (events_view(regular@), events_view(replacements@));
    let mut c: usize = 0;
    while c < row.len()
        invariant
            hv == string_views(headers@),
            rv == string_views(row@),
            rv.len() == row@.len(),
            start == (events_view(old(regular)@), events_view(old(replacements)@)),
            c <= row@.len(),
            row_from(hv, rv, domain@, 0, start) == row_from(
                hv,
                rv,
                domain@,
                c as int,
                (events_view(regular@), events_view(replacements@)),
            ),
        decreases row@.len() - c,
    {
        let ghost acc = (events_view(regular@), events_view(replacements@));
        if c == 0 || row[c].as_str().is_empty() {
            proof {
                if c != 0 {
                    assert(rv[c as int].len() == 0);
                }
            }
            c = c + 1;
            continue;
        }
        assert(rv[c as int].len() != 0);
        let hour = &row[0];
        let header = if c < headers.len() { Some(&headers[c]) } else { None };
        let parsed = parse_markup(row[c].as_str());
        let got = match &parsed {
            Some(v) => event_from_cell(hour.as_str(), header, row[c].as_str(), Some(v), domain),
            None => event_from_cell(hour.as_str(), header, row[c].as_str(), None, domain),
        };
        assert(opt_text(header) == header_at(hv, c as int));
        assert(rv[0] == row@[0]@);
        assert(rv[c as int] == row@[c as int]@);
        assert(match parsed { Some(v) => parsed_markup(rv[c as int]) == Some(v@), None => parsed_markup(rv[c as int]) is None });
        match got {
            Err(e) => {
                assert(row_from(hv, rv, domain@, c as int, acc) == Err::<(Seq<EventView>, Seq<EventView>), WeekError>(e));
                return Err(e);
            },
            Ok(None) => {},
            Ok(Some(ev)) => {
                if ev.replacement {
                    replacements.push(ev);
                } else {
                    regular.push(ev);
                }
                proof {
                    assert(events_view(regular@) =~= route(acc, ev@).0);
                    assert(events_view(replacements@) =~= route(acc, ev@).1);
                }
            },
        }
        c = c + 1;
    }
    Ok(())
}

/// One day header of the weekly table.
pub struct WeekPlanHeader {
    pub text: String,
}

/// The weekly table: the week's date, a header per column, and rows of
/// cells whose column 0 is the hour label.
pub struct WeekPlanData {
    pub date: String,
    pub headers: Vec<WeekPlanHeader>,
    pub rows: Vec<Vec<String>>,
}

/// The portal's answer to a weekly-table request.
pub struct WeekPlanResponse {
    pub success: bool,
    pub data: WeekPlanData,
}

pub open spec fn header_texts(v: Seq<WeekPlanHeader>) -> Seq<Seq<char>> {
    v.map_values(|h: WeekPlanHeader| h.text@)
}

/// The lessons of a weekly table, with organizers' addresses under `domain`.
pub fn week_plan_events(data: &WeekPlanData, domain: &str) -> (r: Result<WeekEvents, WeekError>)
    ensures
        match r {
            Ok(w) => week_spec(header_texts(data.headers@), table_views(data.rows@), domain@)
                == Ok::<_, WeekError>((events_view(w.regular@), events_view(w.replacements@))),
            Err(e) => week_spec(header_texts(data.headers@), table_views(data.rows@), domain@)
                == Err::<(Seq<EventView>, Seq<EventView>), WeekError>(e),
        },
{
    let mut texts: Vec<String> = Vec::new();
    let mut k: usize = 0;
    while k < data.headers.len()
        invariant
            k <= data.headers@.len(),
            string_views(texts@) == header_texts(data.headers@.take(k as int)),
        decreases data.headers@.len() - k,
    {
        let ghost before = string_views(texts@);
        let t = data.headers[k].text.clone();
        texts.push(t);
        assert(string_views(texts@) =~= before.push(data.headers@[k as int].text@));
        assert(data.headers@.take(k + 1) =~= data.headers@.take(k as int).push(data.headers@[k as int]));
        k = k + 1;
        assert(string_views(texts@) =~= header_texts(data.headers@.take(k as int)));
    }
    assert(data.headers@.take(k as int) =~= data.headers@);
    week_events(&texts, &data.rows, domain)
}

/// The lessons of a weekly table, from the day header texts, the rows of
/// cells (column 0 the hour label) and the mail domain.
pub fn week_events(headers: &Vec<String>, rows: &Vec<Vec<String>>, domain: &str) -> (r: Result<
    WeekEvents,
    WeekError,
>)
    ensures
        match r {
            Ok(w) => week_spec(string_views(headers@), table_views(rows@), domain@) == Ok::<
                _,
                WeekError,
            >((events_view(w.regular@), events_view(w.replacements@))),
            Err(e) => week_spec(string_views(headers@), table_views(rows@), domain@) == Err::<
                (Seq<EventView>, Seq<EventView>),
                WeekError,
            >(e),
        },
{
    let mut regular: Vec<ScheduleEvent> = Vec::new();
    let mut replacements: Vec<ScheduleEvent> = Vec::new();
    let ghost hv = string_views(headers@);
    let ghost tv = table_views(rows@);
    proof {
        assert(events_view(regular@) =~= Seq::<EventView>::empty());
        assert(events_view(replacements@) =~= Seq::<EventView>::empty());
    }
    let mut r: usize = 0;
    while r < rows.len()
        invariant
            hv == string_views(headers@),
            tv == table_views(rows@),
            tv.len() == rows@.len(),
            r <= rows@.len(),
            week_spec(hv, tv, domain@) == rows_from(
                hv,
                tv,
                domain@,
                r as int,
                (events_view(regular@), events_view(replacements@)),
            ),
        decreases rows@.len() - r,
    {
        assert(tv[r as int] == string_views(rows@[r as int]@));
        match row_events(headers, &rows[r], domain, &mut regular, &mut replacements) {
            Err(e) => {
                return Err(e);
            },
            Ok(()) => {},
        }
        r = r + 1;
    }
    Ok(WeekEvents { regular, replacements })
}


pub open spec fn is_digit(c: char) -> bool {
    '0' <= c && c <= '9'
}

pub open spec fn digit(c: char) -> int {
    c as int - '0' as int
}

/// All characters of `s` are decimal digits.
pub open spec fn all_digits(s: Seq<char>) -> bool {
    forall|i: int| 0 <= i < s.len() ==> is_digit(s[i])
}

/// Minutes since midnight of the `HH:MM` time written at `at`.
pub open spec fn minutes_at(s: Seq<char>, at: int) -> int {
    digit(s[at]) * 600 + digit(s[at + 1]) * 60 + digit(s[at + 3]) * 10 + digit(s[at + 4])
}

/// An hour label whose two `HH:MM` times, at their fixed positions, are
/// digits, the first before the second.
pub open spec fn valid_slot(hour: Seq<char>) -> bool {
    &&& hour.len() >= 23
    &&& is_digit(hour[7]) && is_digit(hour[8]) && is_digit(hour[10]) && is_digit(hour[11])
    &&& is_digit(hour[18]) && is_digit(hour[19]) && is_digit(hour[21]) && is_digit(hour[22])
    &&& minutes_at(hour, 7) < minutes_at(hour, 18)
}

/// A day header whose date is `DD.MM.YYYY` in digits.
pub open spec fn valid_day_header(header: Seq<char>) -> bool {
    let parts = date_parts(header);
    &&& parts.len() >= 3
    &&& parts[0].len() == 2 && all_digits(parts[0])
    &&& parts[1].len() == 2 && all_digits(parts[1])
    &&& parts[2].len() == 4 && all_digits(parts[2])
}

/// A `YYYYMMDDTHHMMSS` timestamp.
pub open spec fn is_timestamp(ts: Seq<char>) -> bool {
    &&& ts.len() == 15
    &&& ts[8] == 'T'
    &&& forall|i: int| 0 <= i < 15 && i != 8 ==> is_digit(ts[i])
}

/// Minutes since midnight of a timestamp's clock part.
pub open spec fn timestamp_minutes(ts: Seq<char>) -> int {
    digit(ts[9]) * 600 + digit(ts[10]) * 60 + digit(ts[11]) * 10 + digit(ts[12])
}

/// For every valid cell, a valid hour label and a valid day header, the
/// lesson's start and end are well-formed timestamps of the same day and the
/// start comes before the end.
pub proof fn lemma_cell_times_ordered(
    hour: Seq<char>,
    header: Seq<char>,
    cell: Seq<char>,
    parsed: Option<Seq<MarkupNode>>,
    domain: Seq<char>,
)
    requires
        valid_slot(hour),
        valid_day_header(header),
        cell_event(hour, Some(header), cell, parsed, domain) matches Ok(Some(_)),
    ensures
        ({
            let e = cell_event(hour, Some(header), cell, parsed, domain)->Ok_0->Some_0;
            &&& is_timestamp(e.start)
            &&& is_timestamp(e.end)
            &&& e.start.take(9) == e.end.take(9)
            &&& timestamp_minutes(e.start) < timestamp_minutes(e.end)
        }),
{
    reveal_strlit("T");
    reveal_strlit("00");
    let e = cell_event(hour, Some(header), cell, parsed, domain)->Ok_0->Some_0;
    let parts = date_parts(header);
    let date = parts[2] + parts[1] + parts[0];
    assert(e.start == date + "T"@ + clock(hour, 7));
    assert(e.end == date + "T"@ + clock(hour, 18));
    assert(date.len() == 8);
    assert forall|i: int| 0 <= i < 8 implies is_digit(date[i]) by {
        if i < 4 {
            assert(date[i] == parts[2][i]);
        } else if i < 6 {
            assert(date[i] == parts[1][i - 4]);
        } else {
            assert(date[i] == parts[0][i - 6]);
        }
    }
    assert(e.start.take(9) =~= e.end.take(9));
    assert(e.start[9] == hour[7] && e.start[10] == hour[8]);
    assert(e.start[11] == hour[10] && e.start[12] == hour[11]);
    assert(e.end[9] == hour[18] && e.end[10] == hour[19]);
    assert(e.end[11] == hour[21] && e.end[12] == hour[22]);
    assert(e.start[13] == '0' && e.start[14] == '0');
    assert(e.end[13] == '0' && e.end[14] == '0');
}

/// The lesson's start and end are well-formed timestamps of one day, the
/// start before the end.
pub open spec fn well_timed(e: EventView) -> bool {
    &&& is_timestamp(e.start)
    &&& is_timestamp(e.end)
    &&& e.start.take(9) == e.end.take(9)
    &&& timestamp_minutes(e.start) < timestamp_minutes(e.end)
}

pub open spec fn all_well_timed(s: Seq<EventView>) -> bool {
    forall|i: int| 0 <= i < s.len() ==> well_timed(#[trigger] s[i])
}

/// Every lesson cell of the row has a valid hour label and a valid day
/// header.
pub open spec fn valid_row(headers: Seq<Seq<char>>, row: Seq<Seq<char>>) -> bool {
    forall|c: int|
        1 <= c < row.len() && #[trigger] row[c].len() > 0 ==> valid_slot(row[0]) && header_at(
            headers,
            c,
        ) is Some && valid_day_header(header_at(headers, c)->0)
}

proof fn lemma_row_well_timed(
    headers: Seq<Seq<char>>,
    row: Seq<Seq<char>>,
    domain: Seq<char>,
    c: int,
    acc: (Seq<EventView>, Seq<EventView>),
)
    requires
        valid_row(headers, row),
        all_well_timed(acc.0),
        all_well_timed(acc.1),
    ensures
        row_from(headers, row, domain, c, acc) matches Ok(res) ==> all_well_timed(res.0)
            && all_well_timed(res.1),
    decreases row.len() - c,
{
    if 0 <= c < row.len() {
        if c == 0 || row[c].len() == 0 {
            lemma_row_well_timed(headers, row, domain, c + 1, acc);
        } else {
            let got = cell_event(row[0], header_at(headers, c), row[c], parsed_markup(row[c]), domain);
            match got {
                Ok(Some(e)) => {
                    lemma_cell_times_ordered(row[0], header_at(headers, c)->0, row[c], parsed_markup(row[c]), domain);
                    let next = route(acc, e);
                    assert(all_well_timed(next.0));
                    assert(all_well_timed(next.1));
                    lemma_row_well_timed(headers, row, domain, c + 1, next);
                },
                Ok(None) => {
                    lemma_row_well_timed(headers, row, domain, c + 1, acc);
                },
                Err(_) => {},
            }
        }
    }
}

proof fn lemma_rows_well_timed(
    headers: Seq<Seq<char>>,
    rows: Seq<Seq<Seq<char>>>,
    domain: Seq<char>,
    r: int,
    acc: (Seq<EventView>, Seq<EventView>),
)
    requires
        forall|k: int| 0 <= k < rows.len() ==> valid_row(headers, #[trigger] rows[k]),
        all_well_timed(acc.0),
        all_well_timed(acc.1),
    ensures
        rows_from(headers, rows, domain, r, acc) matches Ok(res) ==> all_well_timed(res.0)
            && all_well_timed(res.1),
    decreases rows.len() - r,
{
    if 0 <= r < rows.len() {
        lemma_row_well_timed(headers, rows[r], domain, 0, acc);
        if let Ok(next) = row_from(headers, rows[r], domain, 0, acc) {
            lemma_rows_well_timed(headers, rows, domain, r + 1, next);
        }
    }
}

/// For every table whose lesson cells all have a valid hour label and a
/// valid day header, every lesson of both streams starts and ends at
/// well-formed timestamps of one day, the start before the end.
pub proof fn lemma_week_times_ordered(
    headers: Seq<Seq<char>>,
    rows: Seq<Seq<Seq<char>>>,
    domain: Seq<char>,
)
    requires
        forall|k: int| 0 <= k < rows.len() ==> valid_row(headers, #[trigger] rows[k]),
    ensures
        week_spec(headers, rows, domain) matches Ok(res) ==> all_well_timed(res.0) && all_well_timed(
            res.1,
        ),
{
    lemma_rows_well_timed(headers, rows, domain, 0, (Seq::empty(), Seq::empty()));
}

/// A lesson's status follows the markers in its cell: the cancellation
/// marker, and only it, makes it cancelled; the replacement marker, and only
/// it, routes it to the replacement stream, and to that stream alone.
pub proof fn lemma_markers_route(
    hour: Seq<char>,
    header: Option<Seq<char>>,
    cell: Seq<char>,
    parsed: Option<Seq<MarkupNode>>,
    domain: Seq<char>,
    acc: (Seq<EventView>, Seq<EventView>),
)
    requires
        cell_event(hour, header, cell, parsed, domain) matches Ok(Some(_)),
    ensures
        ({
            let e = cell_event(hour, header, cell, parsed, domain)->Ok_0->Some_0;
            let next = route(acc, e);
            &&& e.cancelled == crate::text::contains_spec(cell, CANCELLED_MARK@)
            &&& e.replacement == crate::text::contains_spec(cell, REPLACEMENT_MARK@)
            &&& e.replacement ==> next == (acc.0, acc.1.push(e))
            &&& !e.replacement ==> next == (acc.0.push(e), acc.1)
        }),
{
}

} // verus!
