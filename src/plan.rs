use vstd::prelude::*;

use crate::markup::{
    element_first_text, element_has_class, find_first_block, first_block, first_child_text,
    has_class, parse_markup, parsed_markup, same_text, MarkupElement, MarkupNode,
};
use crate::text::{chars_of, slice, split, split_spec, string_of, views};
use crate::week::{digit, is_digit, opt_view};

verus! {

/// Class of a fragment that opens a day.
pub const DAY_HEADER_CLASS: &'static str = "dayHeader";

/// Class of a lesson's name that marks it cancelled.
pub const STRUCK_CLASS: &'static str = "striked";

/// Class of the element that notes a replacement.
pub const ANNOTATION_CLASS: &'static str = "annotation";

/// Separator of a lesson's name and room.
pub const ROOM_SEPARATOR: &'static str = ", sala ";

/// Header of a plan without any day.
pub const NO_LESSONS: &'static str = "Brak lekcji.";

/// From this hour on, a long plan shows the next day.
pub const NEXT_DAY_HOUR: u32 = 15;

/// A plan shows the next day only with more fragments than this.
pub const NEXT_DAY_MIN_FRAGMENTS: usize = 11;

/// One lesson of the daily plan.
pub struct Lesson {
    pub name: String,
    pub room: Option<String>,
    pub index: usize,
    pub cancelled: bool,
    pub replacement: Option<String>,
}

/// The lessons of one day, under that day's label.
pub struct PlanResponse {
    pub header: Option<String>,
    pub lessons: Vec<Lesson>,
}

/// Why a daily plan could not be read.
#[derive(PartialEq, Eq, Structural, Debug, Clone, Copy)]
pub enum PlanError {
    /// A fragment's markup does not parse.
    Unparsable,
    /// A fragment lacks an expected element or text.
    Malformed,
    /// A lesson's number is not a number.
    BadIndex,
}

pub struct LessonView {
    pub name: Seq<char>,
    pub room: Option<Seq<char>>,
    pub index: int,
    pub cancelled: bool,
    pub replacement: Option<Seq<char>>,
}

pub struct PlanView {
    pub header: Option<Seq<char>>,
    pub lessons: Seq<LessonView>,
}

impl View for Lesson {
    type V = LessonView;

    open spec fn view(&self) -> LessonView {
        LessonView {
            name: self.name@,
            room: opt_view(self.room),
            index: self.index as int,
            cancelled: self.cancelled,
            replacement: opt_view(self.replacement),
        }
    }
}

pub open spec fn lessons_view(v: Seq<Lesson>) -> Seq<LessonView> {
    v.map_values(|l: Lesson| l@)
}

impl View for PlanResponse {
    type V = PlanView;

    open spec fn view(&self) -> PlanView {
        PlanView { header: opt_view(self.header), lessons: lessons_view(self.lessons@) }
    }
}

/// The value of a string of decimal digits.
pub open spec fn decimal(s: Seq<char>) -> int
    decreases s.len(),
{
    if s.len() == 0 {
        0
    } else {
        decimal(s.drop_last()) * 10 + digit(s.last())
    }
}

/// The digits of a number written with an optional `+`.
pub open spec fn index_digits(s: Seq<char>) -> Seq<char> {
    if s.len() > 0 && s[0] == '+' {
        s.skip(1)
    } else {
        s
    }
}

/// What `usize::from_str` makes of `s`: an optional `+`, then one or more
/// digits whose value fits in a `usize`.
pub open spec fn parse_index_spec(s: Seq<char>) -> Option<int> {
    let d = index_digits(s);
    if d.len() > 0 && (forall|i: int| 0 <= i < d.len() ==> is_digit(d[i])) && decimal(d)
        <= usize::MAX {
        Some(decimal(d))
    } else {
        None
    }
}

proof fn lemma_decimal_grows(s: Seq<char>, k: int)
    requires
        0 <= k <= s.len(),
        forall|i: int| 0 <= i < s.len() ==> is_digit(s[i]),
    ensures
        decimal(s.take(k)) <= decimal(s),
        decimal(s) >= 0,
    decreases s.len(),
{
    if s.len() > 0 {
        assert(s.drop_last().take(k) =~= s.take(k) || k == s.len());
        if k < s.len() {
            lemma_decimal_grows(s.drop_last(), k);
        } else {
            assert(s.take(k) =~= s);
            lemma_decimal_grows(s.drop_last(), 0);
        }
    }
}

/// Reads a lesson number as `usize::from_str` does.
pub fn parse_index(s: &[char]) -> (r: Option<usize>)
    ensures
        match r {
            Some(n) => parse_index_spec(s@) == Some(n as int),
            None => parse_index_spec(s@) is None,
        },
{
    let start: usize = if s.len() > 0 && s[0] == '+' { 1 } else { 0 };
    let ghost d = s@.skip(start as int);
    assert(d =~= index_digits(s@));
    if start >= s.len() {
        return None;
    }
    let mut acc: usize = 0;
    let mut k: usize = start;
    while k < s.len()
        invariant
            start <= k <= s@.len(),
            s@.len() == s.len(),
            d == s@.skip(start as int),
            d == index_digits(s@),
            forall|i: int| 0 <= i < k - start ==> is_digit(d[i]),
            acc as int == decimal(d.take(k - start)),
        decreases s@.len() - k,
    {
        let c = s[k];
        if !('0' <= c && c <= '9') {
            assert(!is_digit(d[k - start]));
            assert(!(forall|i: int| 0 <= i < d.len() ==> is_digit(d[i])));
            assert(parse_index_spec(s@) is None);
            return None;
        }
        let v = (c as u32 - '0' as u32) as usize;
        assert(d.take(k - start + 1).drop_last() =~= d.take(k - start));
        if acc > (usize::MAX - v) / 10 {
            proof {
                assert(decimal(d.take(k - start + 1)) == acc * 10 + v);
                assert(acc * 10 + v > usize::MAX) by (nonlinear_arith)
                    requires acc > (usize::MAX - v) / 10, v <= 9;
                if forall|i: int| 0 <= i < d.len() ==> is_digit(d[i]) {
                    lemma_decimal_grows(d, k - start + 1);
                    assert(decimal(d) > usize::MAX);
                }
                assert(parse_index_spec(s@) is None);
            }
            return None;
        }
        acc = acc * 10 + v;
        k = k + 1;
    }
    assert(d.take(k - start) =~= d);
    Some(acc)
}


/// The block that opens a fragment: its first element other than a break.
pub open spec fn fragment_block(parsed: Option<Seq<MarkupNode>>) -> Result<MarkupElement, PlanError> {
    match parsed {
        None => Err(PlanError::Unparsable),
        Some(nodes) => match first_block(nodes) {
            None => Err(PlanError::Malformed),
            Some(e) => Ok(e),
        },
    }
}

/// A node is the replacement annotation: a `div` of the annotation class.
pub open spec fn is_annotation(n: MarkupNode) -> bool {
    match n {
        MarkupNode::Element(e) => e.name@ == "div"@ && has_class(e, ANNOTATION_CLASS@),
        _ => false,
    }
}

/// `i` is the first position among `nodes` that satisfies `f`.
pub open spec fn is_first_where(nodes: Seq<MarkupNode>, f: spec_fn(MarkupNode) -> bool, i: int) -> bool {
    0 <= i < nodes.len() && f(nodes[i]) && forall|j: int| 0 <= j < i ==> !f(nodes[j])
}

/// The first node among `nodes` that satisfies `f`.
pub open spec fn first_where(nodes: Seq<MarkupNode>, f: spec_fn(MarkupNode) -> bool) -> Option<MarkupNode> {
    if exists|i: int| is_first_where(nodes, f, i) {
        Some(nodes[choose|i: int| is_first_where(nodes, f, i)])
    } else {
        None
    }
}

pub open spec fn is_text(n: MarkupNode) -> bool {
    n is Text
}

/// The first annotation among `nodes`.
pub open spec fn annotation_of(nodes: Seq<MarkupNode>) -> Option<MarkupNode> {
    first_where(nodes, |n: MarkupNode| is_annotation(n))
}

/// The first text node among `nodes`.
pub open spec fn first_text(nodes: Seq<MarkupNode>) -> Option<MarkupNode> {
    first_where(nodes, |n: MarkupNode| is_text(n))
}

/// The name-and-room text of a lesson and whether it is struck through: the
/// second top-level node, an element of struck class or not whose first
/// child is text, or a text of which the first eight characters are a label.
pub open spec fn name_text(nodes: Seq<MarkupNode>) -> Result<(Seq<char>, bool), PlanError> {
    if nodes.len() < 2 {
        Err(PlanError::Malformed)
    } else {
        match nodes[1] {
            MarkupNode::Element(el) => match first_child_text(el) {
                Some(t) => Ok((t, has_class(el, STRUCK_CLASS@))),
                None => Err(PlanError::Malformed),
            },
            MarkupNode::Text(t) => if t@.len() >= 8 {
                Ok((t@.skip(8), false))
            } else {
                Err(PlanError::Malformed)
            },
            MarkupNode::Comment(_) => Err(PlanError::Malformed),
        }
    }
}

/// The replacement note of a lesson that is not cancelled: the first text
/// child of the annotation, less its first fourteen and its last character.
pub open spec fn replacement_note(nodes: Seq<MarkupNode>, cancelled: bool) -> Result<Option<Seq<char>>, PlanError> {
    match annotation_of(nodes) {
        Some(MarkupNode::Element(a)) if !cancelled => match first_text(a.children@) {
            Some(MarkupNode::Text(t)) => if t@.len() >= 15 {
                Ok(Some(t@.subrange(14, t@.len() - 1)))
            } else {
                Err(PlanError::Malformed)
            },
            _ => Ok(None),
        },
        _ => Ok(None),
    }
}

/// The lesson of a fragment whose nodes are `nodes` and whose block is `e`.
pub open spec fn lesson_of(nodes: Seq<MarkupNode>, e: MarkupElement) -> Result<LessonView, PlanError> {
    match first_child_text(e) {
        None => Err(PlanError::Malformed),
        Some(idx) => match name_text(nodes) {
            Err(x) => Err(x),
            Ok((text, cancelled)) => match replacement_note(nodes, cancelled) {
                Err(x) => Err(x),
                Ok(note) => if idx.len() == 0 {
                    Err(PlanError::Malformed)
                } else {
                    match parse_index_spec(idx.drop_last()) {
                        None => Err(PlanError::BadIndex),
                        Some(n) => {
                            let pieces = split_spec(text, ROOM_SEPARATOR@);
                            Ok(LessonView {
                                name: pieces[0],
                                room: if pieces.len() > 1 { Some(pieces[1]) } else { None },
                                index: n,
                                cancelled,
                                replacement: note,
                            })
                        },
                    }
                },
            },
        },
    }
}

/// The plan from fragment `i` on. `seeking` holds while the next day's
/// header is sought; lessons met meanwhile are passed over.
pub open spec fn plan_from(
    frags: Seq<Option<Seq<MarkupNode>>>,
    late: bool,
    i: int,
    seeking: bool,
    header: Option<Seq<char>>,
    lessons: Seq<LessonView>,
) -> Result<PlanView, PlanError>
    decreases frags.len() - i,
{
    if i < 0 || i >= frags.len() {
        Ok(PlanView { header, lessons })
    } else {
        match fragment_block(frags[i]) {
            Err(x) => Err(x),
            Ok(e) => if has_class(e, DAY_HEADER_CLASS@) {
                if seeking {
                    match first_child_text(e) {
                        None => Err(PlanError::Malformed),
                        Some(l) => plan_from(frags, late, i + 1, false, Some(l), lessons),
                    }
                } else if header is Some {
                    Ok(PlanView { header, lessons })
                } else if late {
                    plan_from(frags, late, i + 1, true, header, lessons)
                } else {
                    match first_child_text(e) {
                        None => Err(PlanError::Malformed),
                        Some(l) => plan_from(frags, late, i + 1, false, Some(l), lessons),
                    }
                }
            } else if seeking {
                plan_from(frags, late, i + 1, true, header, lessons)
            } else {
                match lesson_of(frags[i]->Some_0, e) {
                    Err(x) => Err(x),
                    Ok(l) => plan_from(frags, late, i + 1, false, header, lessons.push(l)),
                }
            },
        }
    }
}

/// Whether the plan shows the next day: from the given hour on, and only
/// where there are more fragments than a single day fills.
pub open spec fn shows_next_day(hour: u32, count: int) -> bool {
    hour >= NEXT_DAY_HOUR && count > NEXT_DAY_MIN_FRAGMENTS
}

/// The daily plan of the parsed fragments at the given local hour: the
/// lessons of one day, under that day's header.
pub open spec fn plan_spec(frags: Seq<Option<Seq<MarkupNode>>>, hour: u32) -> Result<PlanView, PlanError> {
    plan_from(frags, shows_next_day(hour, frags.len() as int), 0, false, None, Seq::empty())
}


/// The first annotation among `nodes`.
fn find_annotation(nodes: &Vec<MarkupNode>) -> (r: Option<&MarkupElement>)
    ensures
        match r {
            Some(a) => annotation_of(nodes@) == Some(MarkupNode::Element(*a)),
            None => annotation_of(nodes@) is None,
        },
{
    let ghost f = |n: MarkupNode| is_annotation(n);
    let mut i: usize = 0;
    while i < nodes.len()
        invariant
            i <= nodes@.len(),
            f == (|n: MarkupNode| is_annotation(n)),
            forall|j: int| 0 <= j < i ==> !f(nodes@[j]),
        decreases nodes@.len() - i,
    {
        match &nodes[i] {
            MarkupNode::Element(e) => {
                if same_text(e.name.as_str(), "div") && element_has_class(e, ANNOTATION_CLASS) {
                    proof {
                        assert(is_first_where(nodes@, f, i as int));
                        let c = choose|c: int| is_first_where(nodes@, f, c);
                        if c < i {
                            assert(!f(nodes@[c]));
                        } else if i < c {
                            assert(!f(nodes@[i as int]));
                        }
                    }
                    return Some(e);
                }
            },
            _ => {},
        }
        i = i + 1;
    }
    None
}

/// The first text node among `nodes`.
fn find_text(nodes: &Vec<MarkupNode>) -> (r: Option<&String>)
    ensures
        match r {
            Some(t) => first_text(nodes@) matches Some(MarkupNode::Text(u)) && u == *t,
            None => first_text(nodes@) is None,
        },
{
    let ghost f = |n: MarkupNode| is_text(n);
    let mut i: usize = 0;
    while i < nodes.len()
        invariant
            i <= nodes@.len(),
            f == (|n: MarkupNode| is_text(n)),
            forall|j: int| 0 <= j < i ==> !f(nodes@[j]),
        decreases nodes@.len() - i,
    {
        match &nodes[i] {
            MarkupNode::Text(t) => {
                proof {
                    assert(is_first_where(nodes@, f, i as int));
                    let c = choose|c: int| is_first_where(nodes@, f, c);
                    if c < i {
                        assert(!f(nodes@[c]));
                    } else if i < c {
                        assert(!f(nodes@[i as int]));
                    }
                }
                return Some(t);
            },
            _ => {},
        }
        i = i + 1;
    }
    None
}

/// The name-and-room text of a lesson, and whether it is struck through.
fn read_name_text(nodes: &Vec<MarkupNode>) -> (r: Result<(Vec<char>, bool), PlanError>)
    ensures
        match r {
            Ok((t, c)) => name_text(nodes@) == Ok::<_, PlanError>((t@, c)),
            Err(x) => name_text(nodes@) == Err::<(Seq<char>, bool), PlanError>(x),
        },
{
    if nodes.len() < 2 {
        return Err(PlanError::Malformed);
    }
    match &nodes[1] {
        MarkupNode::Element(el) => match element_first_text(el) {
            Some(t) => Ok((chars_of(t.as_str()), element_has_class(el, STRUCK_CLASS))),
            None => Err(PlanError::Malformed),
        },
        MarkupNode::Text(t) => {
            let cs = chars_of(t.as_str());
            if cs.len() >= 8 {
                Ok((slice(cs.as_slice(), 8, cs.len()), false))
            } else {
                Err(PlanError::Malformed)
            }
        },
        MarkupNode::Comment(_) => Err(PlanError::Malformed),
    }
}

/// The replacement note of a lesson.
fn read_note(nodes: &Vec<MarkupNode>, cancelled: bool) -> (r: Result<Option<String>, PlanError>)
    ensures
        match r {
            Ok(n) => replacement_note(nodes@, cancelled) == Ok::<_, PlanError>(opt_view(n)),
            Err(x) => replacement_note(nodes@, cancelled) == Err::<Option<Seq<char>>, PlanError>(x),
        },
{
    if cancelled {
        return Ok(None);
    }
    match find_annotation(nodes) {
        None => Ok(None),
        Some(a) => match find_text(&a.children) {
            None => Ok(None),
            Some(t) => {
                let cs = chars_of(t.as_str());
                if cs.len() >= 15 {
                    let inner = slice(cs.as_slice(), 14, cs.len() - 1);
                    Ok(Some(string_of(inner.as_slice())))
                } else {
                    Err(PlanError::Malformed)
                }
            },
        },
    }
}

/// The lesson of a fragment whose nodes are `nodes` and whose block is `e`.
pub fn read_lesson(nodes: &Vec<MarkupNode>, e: &MarkupElement) -> (r: Result<Lesson, PlanError>)
    ensures
        match r {
            Ok(l) => lesson_of(nodes@, *e) == Ok::<_, PlanError>(l@),
            Err(x) => lesson_of(nodes@, *e) == Err::<LessonView, PlanError>(x),
        },
{
    let idx = match element_first_text(e) {
        Some(t) => chars_of(t.as_str()),
        None => {
            return Err(PlanError::Malformed);
        },
    };
    let (text, cancelled) = match read_name_text(nodes) {
        Ok(p) => p,
        Err(x) => {
            return Err(x);
        },
    };
    let note = match read_note(nodes, cancelled) {
        Ok(n) => n,
        Err(x) => {
            return Err(x);
        },
    };
    if idx.len() == 0 {
        return Err(PlanError::Malformed);
    }
    let digits = slice(idx.as_slice(), 0, idx.len() - 1);
    assert(digits@ =~= idx@.drop_last());
    let index = match parse_index(digits.as_slice()) {
        Some(n) => n,
        None => {
            return Err(PlanError::BadIndex);
        },
    };
    let sep = chars_of(ROOM_SEPARATOR);
    proof {
        reveal_strlit(", sala ");
    }
    let pieces = split(text.as_slice(), sep.as_slice());
    assert(views(pieces@)[0] == pieces@[0]@);
    let name = string_of(pieces[0].as_slice());
    let room = if pieces.len() > 1 {
        assert(views(pieces@)[1] == pieces@[1]@);
        Some(string_of(pieces[1].as_slice()))
    } else {
        None
    };
    Ok(Lesson { name, room, index, cancelled, replacement: note })
}


pub open spec fn parsed_view(v: Seq<Option<Vec<MarkupNode>>>) -> Seq<Option<Seq<MarkupNode>>> {
    v.map_values(
        |o: Option<Vec<MarkupNode>>|
            match o {
                Some(n) => Some(n@),
                None => None,
            },
    )
}

pub open spec fn plan_result_view(r: Result<PlanResponse, PlanError>) -> Result<PlanView, PlanError> {
    match r {
        Ok(p) => Ok(p@),
        Err(x) => Err(x),
    }
}

/// The daily plan of fragments already parsed (`None` where one did not
/// parse), read at the given local hour.
pub fn plan_from_parsed(parsed: &Vec<Option<Vec<MarkupNode>>>, hour: u32) -> (r: Result<
    PlanResponse,
    PlanError,
>)
    ensures
        plan_result_view(r) == plan_spec(parsed_view(parsed@), hour),
{
    let ghost frags = parsed_view(parsed@);
    let late = hour >= NEXT_DAY_HOUR && parsed.len() > NEXT_DAY_MIN_FRAGMENTS;
    let mut seeking = false;
    let mut header: Option<String> = None;
    let mut lessons: Vec<Lesson> = Vec::new();
    let mut i: usize = 0;
    assert(lessons_view(lessons@) =~= Seq::<LessonView>::empty());
    while i < parsed.len()
        invariant
            frags == parsed_view(parsed@),
            frags.len() == parsed@.len(),
            late == shows_next_day(hour, frags.len() as int),
            i <= parsed@.len(),
            plan_spec(frags, hour) == plan_from(
                frags,
                late,
                i as int,
                seeking,
                opt_view(header),
                lessons_view(lessons@),
            ),
        decreases parsed@.len() - i,
    {
        let nodes = match &parsed[i] {
            Some(n) => n,
            None => {
                return Err(PlanError::Unparsable);
            },
        };
        assert(frags[i as int] == Some(nodes@));
        let e = match find_first_block(nodes) {
            Some(e) => e,
            None => {
                return Err(PlanError::Malformed);
            },
        };
        if element_has_class(e, DAY_HEADER_CLASS) {
            if seeking || (header.is_none() && !late) {
                match element_first_text(e) {
                    None => {
                        return Err(PlanError::Malformed);
                    },
                    Some(l) => {
                        header = Some(l.clone());
                        seeking = false;
                    },
                }
            } else if header.is_some() {
                return Ok(PlanResponse { header, lessons });
            } else {
                seeking = true;
            }
        } else if !seeking {
            match read_lesson(nodes, e) {
                Err(x) => {
                    return Err(x);
                },
                Ok(l) => {
                    let ghost before = lessons_view(lessons@);
                    lessons.push(l);
                    assert(lessons_view(lessons@) =~= before.push(l@));
                },
            }
        }
        i = i + 1;
    }
    Ok(PlanResponse { header, lessons })
}

/// The daily plan of the widget's fragments, read at the given local hour
/// (0 to 23): each fragment is parsed as markup in turn.
pub fn extract_plan(fragments: &Vec<String>, hour: u32) -> (r: Result<PlanResponse, PlanError>)
    ensures
        plan_result_view(r) == plan_spec(
            fragments@.map_values(|f: String| parsed_markup(f@)),
            hour,
        ),
{
    let mut parsed: Vec<Option<Vec<MarkupNode>>> = Vec::new();
    let mut i: usize = 0;
    while i < fragments.len()
        invariant
            i <= fragments@.len(),
            parsed_view(parsed@) == fragments@.take(i as int).map_values(
                |f: String| parsed_markup(f@),
            ),
        decreases fragments@.len() - i,
    {
        let p = parse_markup(fragments[i].as_str());
        let ghost pv = parsed_view(seq![p])[0];
        assert(pv == parsed_markup(fragments@[i as int]@));
        let ghost before = parsed_view(parsed@);
        parsed.push(p);
        assert(parsed_view(parsed@) =~= before.push(pv));
        i = i + 1;
        assert(parsed_view(parsed@) =~= fragments@.take(i as int).map_values(
            |f: String| parsed_markup(f@),
        ));
    }
    assert(fragments@.take(i as int) =~= fragments@);
    plan_from_parsed(&parsed, hour)
}

/// The plan of a widget that holds no day at all.
pub fn no_lessons() -> (r: PlanResponse)
    ensures
        r@.header == Some(NO_LESSONS@),
        r@.lessons.len() == 0,
{
    let header = String::from_str(NO_LESSONS);
    let lessons: Vec<Lesson> = Vec::new();
    PlanResponse { header: Some(header), lessons }
}


/// Fragment `i` is a day header labelled `l`.
pub open spec fn is_header_fragment(frags: Seq<Option<Seq<MarkupNode>>>, i: int, l: Seq<char>) -> bool {
    &&& 0 <= i < frags.len()
    &&& fragment_block(frags[i]) is Ok
    &&& has_class(fragment_block(frags[i])->Ok_0, DAY_HEADER_CLASS@)
    &&& first_child_text(fragment_block(frags[i])->Ok_0) == Some(l)
}

/// Fragment `i` is a well-formed lesson.
pub open spec fn is_lesson_fragment(frags: Seq<Option<Seq<MarkupNode>>>, i: int) -> bool {
    &&& 0 <= i < frags.len()
    &&& fragment_block(frags[i]) is Ok
    &&& !has_class(fragment_block(frags[i])->Ok_0, DAY_HEADER_CLASS@)
    &&& lesson_of(frags[i]->Some_0, fragment_block(frags[i])->Ok_0) is Ok
}

/// The lesson of fragment `i`.
pub open spec fn lesson_at(frags: Seq<Option<Seq<MarkupNode>>>, i: int) -> LessonView {
    lesson_of(frags[i]->Some_0, fragment_block(frags[i])->Ok_0)->Ok_0
}

/// The lessons of fragments `a` up to `b`.
pub open spec fn lessons_between(frags: Seq<Option<Seq<MarkupNode>>>, a: int, b: int) -> Seq<LessonView> {
    Seq::new((b - a) as nat, |t: int| lesson_at(frags, a + t))
}

/// A day's lessons end at `k`: the fragments end there, or a header opens.
pub open spec fn day_ends_at(frags: Seq<Option<Seq<MarkupNode>>>, k: int) -> bool {
    ||| k == frags.len()
    ||| (0 <= k < frags.len() && fragment_block(frags[k]) is Ok && has_class(
        fragment_block(frags[k])->Ok_0,
        DAY_HEADER_CLASS@,
    ))
}

proof fn lemma_collect_run(
    frags: Seq<Option<Seq<MarkupNode>>>,
    late: bool,
    a: int,
    b: int,
    header: Option<Seq<char>>,
    lessons: Seq<LessonView>,
)
    requires
        0 <= a <= b <= frags.len(),
        forall|i: int| a <= i < b ==> is_lesson_fragment(frags, i),
    ensures
        plan_from(frags, late, a, false, header, lessons) == plan_from(
            frags,
            late,
            b,
            false,
            header,
            lessons + lessons_between(frags, a, b),
        ),
    decreases b - a,
{
    if a == b {
        assert(lessons + lessons_between(frags, a, b) =~= lessons);
    } else {
        assert(is_lesson_fragment(frags, a));
        let next = lessons.push(lesson_at(frags, a));
        lemma_collect_run(frags, late, a + 1, b, header, next);
        assert(next + lessons_between(frags, a + 1, b) =~= lessons + lessons_between(frags, a, b));
    }
}

proof fn lemma_seek_run(
    frags: Seq<Option<Seq<MarkupNode>>>,
    late: bool,
    a: int,
    b: int,
    header: Option<Seq<char>>,
    lessons: Seq<LessonView>,
)
    requires
        0 <= a <= b <= frags.len(),
        forall|i: int| a <= i < b ==> is_lesson_fragment(frags, i),
    ensures
        plan_from(frags, late, a, true, header, lessons) == plan_from(
            frags,
            late,
            b,
            true,
            header,
            lessons,
        ),
    decreases b - a,
{
    if a < b {
        assert(is_lesson_fragment(frags, a));
        lemma_seek_run(frags, late, a + 1, b, header, lessons);
    }
}

/// Before the next-day hour, a plan that opens with a day header is that
/// day's: its header and the lessons after it, up to the next header or the
/// end, whether or not a second day follows.
pub proof fn lemma_first_day_before_hour(
    frags: Seq<Option<Seq<MarkupNode>>>,
    hour: u32,
    first: Seq<char>,
    k: int,
)
    requires
        hour < NEXT_DAY_HOUR,
        is_header_fragment(frags, 0, first),
        1 <= k <= frags.len(),
        forall|i: int| 1 <= i < k ==> is_lesson_fragment(frags, i),
        day_ends_at(frags, k),
    ensures
        plan_spec(frags, hour) == Ok::<PlanView, PlanError>(
            PlanView { header: Some(first), lessons: lessons_between(frags, 1, k) },
        ),
{
    let none: Seq<LessonView> = Seq::empty();
    lemma_collect_run(frags, false, 1, k, Some(first), none);
    assert(none + lessons_between(frags, 1, k) =~= lessons_between(frags, 1, k));
}

/// Before the next-day hour the plan is the first day's: its header and the
/// lessons up to the second header. From that hour on, with more fragments
/// than one day fills, it is the second day's: the second header and the
/// lessons that follow it, up to the next header or the end.
pub proof fn lemma_next_day_rule(
    frags: Seq<Option<Seq<MarkupNode>>>,
    hour: u32,
    first: Seq<char>,
    second: Seq<char>,
    j: int,
    k: int,
)
    requires
        is_header_fragment(frags, 0, first),
        1 <= j < k <= frags.len(),
        forall|i: int| 1 <= i < j ==> is_lesson_fragment(frags, i),
        is_header_fragment(frags, j, second),
        forall|i: int| j < i < k ==> is_lesson_fragment(frags, i),
        day_ends_at(frags, k),
    ensures
        hour < NEXT_DAY_HOUR ==> plan_spec(frags, hour) == Ok::<PlanView, PlanError>(
            PlanView { header: Some(first), lessons: lessons_between(frags, 1, j) },
        ),
        shows_next_day(hour, frags.len() as int) ==> plan_spec(frags, hour) == Ok::<
            PlanView,
            PlanError,
        >(PlanView { header: Some(second), lessons: lessons_between(frags, j + 1, k) }),
{
    let late = shows_next_day(hour, frags.len() as int);
    let none: Seq<LessonView> = Seq::empty();
    if hour < NEXT_DAY_HOUR {
        lemma_collect_run(frags, late, 1, j, Some(first), none);
        assert(none + lessons_between(frags, 1, j) =~= lessons_between(frags, 1, j));
    }
    if late {
        lemma_seek_run(frags, late, 1, j, None, none);
        lemma_collect_run(frags, late, j + 1, k, Some(second), none);
        assert(none + lessons_between(frags, j + 1, k) =~= lessons_between(frags, j + 1, k));
    }
}

} // verus!
