//! Which results of an event are taken into the store, and how: the runner's club
//! and age category, and the check that a runner ran a course long enough for their
//! category.
use chrono::NaiveTime;
use indexmap::IndexSet;
use vstd::prelude::*;
use crate::courses::{colored_courses, colored_table, find_entry, lookup, numbered_courses, numbered_table};
use crate::text::{has_char, same_text, slice_text};
use crate::webres::{Category, CourseResult};
use crate::{AgeClassOverride, Competitor, ResultProcessingOptions};

verus! {

/// The member clubs.
pub open spec fn clubs() -> Seq<&'static str> {
    seq![
        "Antwerp Orienteers",
        "Borasca",
        "hamok",
        "K.O.L.",
        "Omega",
        "Trol",
    ]
}

/// Categories that are not age categories of the course table.
pub open spec fn classes() -> Seq<&'static str> {
    seq![
        "H. Pupilles",
        "D. Pupilles",
        "H. Espoirs - Beloften",
        "D. Espoirs - Beloften",
        "H. Junioren - Juniors",
        "D. Junioren - Juniores",
        "H. Open",
        "D. Open",
        "H. Masters A",
        "D. Masters A",
        "H. Masters B",
        "D. Masters B",
        "H. Masters C",
        "D. Masters C",
        "H. Masters D",
        "D. Masters D",
        "H. Masters E",
        "D. Masters E",
        "H. Masters F",
        "D. Masters F",
    ]
}

/// The coloured courses, longest first.
pub open spec fn course_names() -> Seq<&'static str> {
    seq![
        "Zwart Extra Lang",
        "Zwart Lang",
        "Zwart Midden",
        "Zwart Kort",
        "Rood Midden",
        "Blauw Kort",
        "Groen Kort",
    ]
}

pub open spec fn texts(s: Seq<&'static str>) -> Seq<Seq<char>> {
    s.map_values(|t: &'static str| t@)
}

/// The member club names.
pub fn club_names() -> (r: Vec<&'static str>)
    ensures
        r@ == clubs(),
{
    let r = vec![
        "Antwerp Orienteers",
        "Borasca",
        "hamok",
        "K.O.L.",
        "Omega",
        "Trol",
    ];
    assert(r@ =~= clubs());
    r
}

/// The categories that are not age categories.
pub fn class_names() -> (r: Vec<&'static str>)
    ensures
        r@ == classes(),
{
    let r = vec![
        "H. Pupilles",
        "D. Pupilles",
        "H. Espoirs - Beloften",
        "D. Espoirs - Beloften",
        "H. Junioren - Juniors",
        "D. Junioren - Juniores",
        "H. Open",
        "D. Open",
        "H. Masters A",
        "D. Masters A",
        "H. Masters B",
        "D. Masters B",
        "H. Masters C",
        "D. Masters C",
        "H. Masters D",
        "D. Masters D",
        "H. Masters E",
        "D. Masters E",
        "H. Masters F",
        "D. Masters F",
    ];
    assert(r@ =~= classes());
    r
}

/// The coloured course names, longest first.
pub fn colored_course_names() -> (r: Vec<&'static str>)
    ensures
        r@ == course_names(),
{
    let r = vec![
        "Zwart Extra Lang",
        "Zwart Lang",
        "Zwart Midden",
        "Zwart Kort",
        "Rood Midden",
        "Blauw Kort",
        "Groen Kort",
    ];
    assert(r@ =~= course_names());
    r
}

/// Distinct items in order of first appearance.
pub open spec fn first_appearances(s: Seq<Seq<char>>) -> Seq<Seq<char>>
    decreases s.len(),
{
    if s.len() == 0 {
        s
    } else {
        let r = first_appearances(s.drop_last());
        if r.contains(s.last()) {
            r
        } else {
            r.push(s.last())
        }
    }
}

/// The first position of `x` in `s`.
pub open spec fn position_of(s: Seq<Seq<char>>, x: Seq<char>) -> Option<int>
    decreases s.len(),
{
    if s.len() == 0 {
        None
    } else if s[0] == x {
        Some(0)
    } else {
        match position_of(s.drop_first(), x) {
            Some(i) => Some(i + 1),
            None => None,
        }
    }
}

/// The place of a coloured course in the order from longest to shortest.
pub open spec fn course_rank(name: Seq<char>) -> Option<int> {
    position_of(first_appearances(texts(course_names())), name)
}

/// The items of an ordered set of course names, in their order.
pub uninterp spec fn set_items(s: IndexSet<String>) -> Seq<Seq<char>>;

#[verifier::external_type_specification]
#[verifier::external_body]
#[verifier::reject_recursive_types(T)]
#[verifier::reject_recursive_types(S)]
pub struct ExIndexSet<T, S>(IndexSet<T, S>);

/// Relies on `IndexSet`'s `FromIterator`: items are kept in the order they come, and a
/// repeated item keeps the position of its first appearance.
#[verifier::external_body]
fn ordered_set(names: &Vec<&'static str>) -> (r: IndexSet<String>)
    ensures
        set_items(r) == first_appearances(texts(names@)),
{
    names.iter().map(|n| n.to_string()).collect()
}

/// Relies on `IndexSet::get_index_of`: the position of the item equal to `name`.
#[verifier::external_body]
fn index_in(set: &IndexSet<String>, name: &str) -> (r: Option<usize>)
    ensures
        r matches Some(i) ==> i < set_items(*set).len() && set_items(*set)[i as int] == name@,
        r is None ==> !set_items(*set).contains(name@),
{
    set.get_index_of(name)
}

/// What `str::to_lowercase` makes of a text.
pub uninterp spec fn lower_of(s: Seq<char>) -> Seq<char>;

/// Relies on `str::to_lowercase`: the lower-case form depends on the characters alone.
#[verifier::external_body]
fn lowercase(s: &str) -> (r: String)
    ensures
        r@ == lower_of(s@),
{
    s.to_lowercase()
}

proof fn lemma_first_appearances_distinct(s: Seq<Seq<char>>)
    ensures
        first_appearances(s).no_duplicates(),
    decreases s.len(),
{
    if s.len() > 0 {
        lemma_first_appearances_distinct(s.drop_last());
    }
}

proof fn lemma_position_of(s: Seq<Seq<char>>, x: Seq<char>, i: int)
    requires
        s.no_duplicates(),
        0 <= i < s.len(),
        s[i] == x,
    ensures
        position_of(s, x) == Some(i),
    decreases s.len(),
{
    if i > 0 {
        assert(s.drop_first()[i - 1] == x);
        lemma_position_of(s.drop_first(), x, i - 1);
    }
}

proof fn lemma_position_of_absent(s: Seq<Seq<char>>, x: Seq<char>)
    requires
        !s.contains(x),
    ensures
        position_of(s, x) is None,
    decreases s.len(),
{
    if s.len() > 0 {
        if s.drop_first().contains(x) {
            let k = choose|k: int| 0 <= k < s.drop_first().len() && s.drop_first()[k] == x;
            assert(s[k + 1] == x);
        }
        lemma_position_of_absent(s.drop_first(), x);
    }
}

/// The place of course `name` in the ordered set `set` of all coloured courses.
fn rank_in(set: &IndexSet<String>, name: &str) -> (r: Option<usize>)
    requires
        set_items(*set) == first_appearances(texts(course_names())),
    ensures
        r matches Some(i) ==> course_rank(name@) == Some(i as int),
        r is None ==> course_rank(name@) is None,
{
    let r = index_in(set, name);
    proof {
        lemma_first_appearances_distinct(texts(course_names()));
        match r {
            Some(i) => lemma_position_of(set_items(*set), name@, i as int),
            None => lemma_position_of_absent(set_items(*set), name@),
        }
    }
    r
}

/// Whether a folded club name starts with a folded member club name.
pub fn starts_with_folded(folded_club: &str, folded_member: &str) -> (r: bool)
    ensures
        r == folded_member@.is_prefix_of(folded_club@),
{
    let n = folded_member.unicode_len();
    if n > folded_club.unicode_len() {
        return false;
    }
    let head = slice_text(folded_club, 0, n);
    same_text(head.as_str(), folded_member)
}

/// A club of a member: its lower-case form starts with that of a member club.
pub open spec fn is_member_club(club: Seq<char>) -> bool {
    exists|i: int| 0 <= i < clubs().len() && lower_of(clubs()[i]@).is_prefix_of(lower_of(club))
}

/// Whether `club` belongs to a member club.
pub fn is_ov_club(club: &str) -> (r: bool)
    ensures
        r == is_member_club(club@),
{
    let members = club_names();
    let folded = lowercase(club);
    let mut i: usize = 0;
    while i < members.len()
        invariant
            i <= members@.len(),
            members@ == clubs(),
            folded@ == lower_of(club@),
            forall|j: int| 0 <= j < i ==> !lower_of(clubs()[j]@).is_prefix_of(lower_of(club@)),
        decreases members@.len() - i,
    {
        let member = lowercase(members[i]);
        if starts_with_folded(folded.as_str(), member.as_str()) {
            return true;
        }
        i = i + 1;
    }
    false
}

/// The club name after comparing it in turn with the first `k` member clubs: where the
/// lower-case name starts with that of a member club, the member club's name replaces it.
pub open spec fn member_club_from(club: Seq<char>, k: int) -> Seq<char>
    decreases k,
{
    if k <= 0 {
        club
    } else {
        let prev = member_club_from(club, k - 1);
        if lower_of(clubs()[k - 1]@).is_prefix_of(lower_of(prev)) {
            clubs()[k - 1]@
        } else {
            prev
        }
    }
}

/// The club name written as the member club's own name, where it is a member's.
pub fn member_club_name(club: &str) -> (r: String)
    ensures
        r@ == member_club_from(club@, clubs().len() as int),
{
    let members = club_names();
    let mut name = club.to_owned();
    let mut i: usize = 0;
    while i < members.len()
        invariant
            i <= members@.len(),
            members@ == clubs(),
            name@ == member_club_from(club@, i as int),
        decreases members@.len() - i,
    {
        let folded = lowercase(name.as_str());
        let member = lowercase(members[i]);
        if starts_with_folded(folded.as_str(), member.as_str()) {
            name = members[i].to_owned();
        }
        i = i + 1;
    }
    name
}

/// The age category of runner `name`: that of the first correction for the runner, or
/// `age_class`.
pub open spec fn overridden(os: Seq<AgeClassOverride>, name: Seq<char>, age_class: Seq<char>) -> Seq<
    char,
>
    decreases os.len(),
{
    if os.len() == 0 {
        age_class
    } else if os[0].name@ == name {
        os[0].age_class@
    } else {
        overridden(os.drop_first(), name, age_class)
    }
}

/// Applies the first correction of runner `name`'s age category, if any.
pub fn override_age_class(overrides: &Vec<AgeClassOverride>, name: &str, age_class: &str) -> (r:
    String)
    ensures
        r@ == overridden(overrides@, name@, age_class@),
{
    let n = overrides.len();
    let mut i: usize = 0;
    assert(overrides@.subrange(0, n as int) =~= overrides@);
    while i < n
        invariant
            n == overrides@.len(),
            i <= n,
            overridden(overrides@, name@, age_class@) == overridden(
                overrides@.subrange(i as int, n as int),
                name@,
                age_class@,
            ),
        decreases n - i,
    {
        assert(overrides@.subrange(i as int, n as int).drop_first() =~= overrides@.subrange(
            i + 1,
            n as int,
        ));
        if same_text(overrides[i].name.as_str(), name) {
            return overrides[i].age_class.clone();
        }
        i = i + 1;
    }
    age_class.to_owned()
}

/// The entered category of the first competitor called `name`.
pub open spec fn entered_class(cs: Seq<Competitor>, name: Seq<char>) -> Option<Seq<char>>
    decreases cs.len(),
{
    if cs.len() == 0 {
        None
    } else if cs[0].name@ == name {
        Some(cs[0].age_class@)
    } else {
        entered_class(cs.drop_first(), name)
    }
}

fn find_entered_class(cs: &Vec<Competitor>, name: &String) -> (r: Option<String>)
    ensures
        r matches Some(s) ==> entered_class(cs@, name@) == Some(s@),
        r is None ==> entered_class(cs@, name@) is None,
{
    let n = cs.len();
    let mut i: usize = 0;
    assert(cs@.subrange(0, n as int) =~= cs@);
    while i < n
        invariant
            n == cs@.len(),
            i <= n,
            entered_class(cs@, name@) == entered_class(cs@.subrange(i as int, n as int), name@),
        decreases n - i,
    {
        assert(cs@.subrange(i as int, n as int).drop_first() =~= cs@.subrange(i + 1, n as int));
        if cs[i].name == *name {
            return Some(cs[i].age_class.clone());
        }
        i = i + 1;
    }
    None
}

/// `i` starts a course name in `c`: a gender (or `|`) and `:`, followed by a non-empty
/// rest without a line break.
pub open spec fn course_name_at(c: Seq<char>, i: int) -> bool {
    0 <= i && i + 2 < c.len() && (c[i] == 'H' || c[i] == '|' || c[i] == 'D') && c[i + 1] == ':'
        && !c.subrange(i + 2, c.len() as int).contains('\n')
}

pub open spec fn first_course_name_at(c: Seq<char>, i: int) -> int
    decreases c.len() - i,
{
    if i < 0 || i >= c.len() || course_name_at(c, i) {
        i
    } else {
        first_course_name_at(c, i + 1)
    }
}

/// The course name in a label such as "H:Zwart Lang": the rest after the first
/// `<H|D>:` that is followed by a non-empty rest without a line break.
pub open spec fn course_name_of(c: Seq<char>) -> Option<Seq<char>> {
    let i = first_course_name_at(c, 0);
    if 0 <= i < c.len() {
        Some(c.subrange(i + 2, c.len() as int))
    } else {
        None
    }
}

/// The course name in a label such as "H:Zwart Lang".
pub fn get_course_name(label: &str) -> (r: Option<String>)
    ensures
        r matches Some(s) ==> course_name_of(label@) == Some(s@),
        r is None ==> course_name_of(label@) is None,
{
    let n = label.unicode_len();
    let mut i: usize = 0;
    while i < n
        invariant
            n == label@.len(),
            i <= n,
            first_course_name_at(label@, 0) == first_course_name_at(label@, i as int),
        decreases n - i,
    {
        if n >= 2 && i < n - 2 {
            let g = label.get_char(i);
            if (g == 'H' || g == '|' || g == 'D') && label.get_char(i + 1) == ':' {
                let rest = slice_text(label, i + 2, n);
                if !has_char(rest.as_str(), '\n') {
                    return Some(rest);
                }
            }
        }
        i = i + 1;
    }
    None
}

/// Whether `s` is one of `names`.
fn is_listed(names: &Vec<&'static str>, s: &str) -> (r: bool)
    ensures
        r == texts(names@).contains(s@),
{
    let mut i: usize = 0;
    while i < names.len()
        invariant
            i <= names@.len(),
            forall|j: int| 0 <= j < i ==> names@[j]@ != s@,
        decreases names@.len() - i,
    {
        if same_text(names[i], s) {
            assert(texts(names@)[i as int] == s@);
            return true;
        }
        i = i + 1;
    }
    assert forall|j: int| 0 <= j < texts(names@).len() implies texts(names@)[j] != s@ by {}
    false
}

/// A result to be stored.
#[derive(Debug)]
pub struct StoredResult {
    pub name: String,
    pub club: String,
    pub category_name: String,
    pub age_class: String,
    pub position: u32,
    pub time: NaiveTime,
}

pub struct StoredView {
    pub name: Seq<char>,
    pub club: Seq<char>,
    pub category_name: Seq<char>,
    pub age_class: Seq<char>,
    pub position: u32,
    pub time: NaiveTime,
}

impl View for StoredResult {
    type V = StoredView;

    open spec fn view(&self) -> StoredView {
        StoredView {
            name: self.name@,
            club: self.club@,
            category_name: self.category_name@,
            age_class: self.age_class@,
            position: self.position,
            time: self.time,
        }
    }
}

/// Why the results of an event could not be taken in; each names the runner.
#[derive(Debug)]
pub enum IngestError {
    /// A result in a category that is not an age category, of a runner whose age
    /// category is neither in the result nor in the entry lists.
    NoAgeClass(String),
    /// A result on a coloured course without an age category.
    MissingAgeClass(String),
    /// An age category that has no coloured course.
    UnknownAgeClass(String),
    /// An age category whose coloured course is not one of the known courses.
    UnknownCourse(String),
}

/// Every result of every category, paired with its category, in order.
pub open spec fn entries(cats: Seq<Category>) -> Seq<(Category, CourseResult)>
    decreases cats.len(),
{
    if cats.len() == 0 {
        Seq::empty()
    } else {
        entries(cats.drop_last()) + cats.last().results@.map_values(
            |r: CourseResult| (cats.last(), r),
        )
    }
}

/// A finished result with a place.
pub open spec fn counts(r: CourseResult) -> bool {
    r.status@ == "OK"@ && r.position != 0
}

pub open spec fn stored(c: Category, r: CourseResult, club: Seq<char>, age_class: Seq<char>) -> StoredView {
    StoredView {
        name: r.name@,
        club,
        category_name: c.name@,
        age_class,
        position: r.position,
        time: r.time,
    }
}

/// A category that is taken in when results are stored by category.
pub open spec fn is_known_category(name: Seq<char>) -> bool {
    lookup(numbered_table(), name) is Some || texts(classes()).contains(name)
}

/// What becomes of result `r` of category `c` when results are stored by category:
/// nothing (`None`), a stored result, or an error.
pub open spec fn by_class_row(c: Category, r: CourseResult, o: ResultProcessingOptions) -> Option<
    Result<StoredView, IngestError>,
> {
    if !is_known_category(c.name@) || !counts(r) || (o.cup@ == "kampioen"@ && !is_member_club(
        r.club@,
    )) {
        None
    } else if texts(classes()).contains(c.name@) {
        match r.age_class {
            Some(a) => Some(Ok(stored(c, r, r.club@, a@))),
            None => match entered_class(o.competitors@, r.name@) {
                Some(a) => Some(Ok(stored(c, r, r.club@, a))),
                None => Some(Err(IngestError::NoAgeClass(r.name))),
            },
        }
    } else {
        Some(Ok(stored(c, r, r.club@, c.name@)))
    }
}

/// What becomes of result `r` on coloured course `c`: a runner is stored in their
/// (corrected) age category, with the member club's own name, unless the course of
/// that category is longer than the one run.
pub open spec fn colored_row(c: Category, r: CourseResult, o: ResultProcessingOptions) -> Option<
    Result<StoredView, IngestError>,
> {
    match course_name_of(c.name@) {
        None => None,
        Some(cn) => match course_rank(cn) {
            None => None,
            Some(ci) => if !counts(r) {
                None
            } else {
                match r.age_class {
                    None => Some(Err(IngestError::MissingAgeClass(r.name))),
                    Some(a) => {
                        let a2 = overridden(o.overrides@, r.name@, a@);
                        match lookup(colored_table(), a2) {
                            None => Some(Err(IngestError::UnknownAgeClass(r.name))),
                            Some(rc) => match course_name_of(rc@) {
                                None => None,
                                Some(rcn) => match course_rank(rcn) {
                                    None => Some(Err(IngestError::UnknownCourse(r.name))),
                                    Some(ri) => if ri < ci {
                                        None
                                    } else {
                                        Some(
                                            Ok(
                                                stored(
                                                    c,
                                                    r,
                                                    member_club_from(r.club@, clubs().len() as int),
                                                    a2,
                                                ),
                                            ),
                                        )
                                    },
                                },
                            },
                        }
                    },
                }
            },
        },
    }
}

/// Results are stored by category in the championship or where asked for; else by
/// coloured course.
pub open spec fn stores_by_class(o: ResultProcessingOptions) -> bool {
    o.cup@ == "kampioen"@ || o.results_by_class == Some(true)
}

pub open spec fn row_for(e: (Category, CourseResult), o: ResultProcessingOptions) -> Option<
    Result<StoredView, IngestError>,
> {
    if stores_by_class(o) {
        by_class_row(e.0, e.1, o)
    } else {
        colored_row(e.0, e.1, o)
    }
}

/// The results to store, in order, or the first error.
pub open spec fn plan(es: Seq<(Category, CourseResult)>, o: ResultProcessingOptions) -> Result<
    Seq<StoredView>,
    IngestError,
>
    decreases es.len(),
{
    if es.len() == 0 {
        Ok(Seq::empty())
    } else {
        match plan(es.drop_last(), o) {
            Err(e) => Err(e),
            Ok(rows) => match row_for(es.last(), o) {
                None => Ok(rows),
                Some(Ok(v)) => Ok(rows.push(v)),
                Some(Err(e)) => Err(e),
            },
        }
    }
}

pub open spec fn row_view(x: Option<Result<StoredResult, IngestError>>) -> Option<
    Result<StoredView, IngestError>,
> {
    match x {
        None => None,
        Some(Ok(s)) => Some(Ok(s@)),
        Some(Err(e)) => Some(Err(e)),
    }
}

pub open spec fn stored_views(s: Seq<StoredResult>) -> Seq<StoredView> {
    s.map_values(|x: StoredResult| x@)
}

proof fn lemma_entries_prefix(cats: Seq<Category>, m: int)
    requires
        0 <= m <= cats.len(),
    ensures
        entries(cats.subrange(0, m)).len() <= entries(cats).len(),
        entries(cats).subrange(0, entries(cats.subrange(0, m)).len() as int) == entries(
            cats.subrange(0, m),
        ),
    decreases cats.len(),
{
    if m < cats.len() {
        let d = cats.drop_last();
        assert(d.subrange(0, m) =~= cats.subrange(0, m));
        lemma_entries_prefix(d, m);
        let l = entries(cats.subrange(0, m)).len() as int;
        assert(entries(cats).subrange(0, l) =~= entries(d).subrange(0, l));
    } else {
        assert(cats.subrange(0, m) =~= cats);
        assert(entries(cats).subrange(0, entries(cats).len() as int) =~= entries(cats));
    }
}

proof fn lemma_plan_error_stays(es: Seq<(Category, CourseResult)>, k: int, o: ResultProcessingOptions)
    requires
        0 <= k <= es.len(),
        plan(es.subrange(0, k), o) is Err,
    ensures
        plan(es, o) == plan(es.subrange(0, k), o),
    decreases es.len(),
{
    if k < es.len() {
        assert(es.drop_last().subrange(0, k) =~= es.subrange(0, k));
        lemma_plan_error_stays(es.drop_last(), k, o);
    } else {
        assert(es.subrange(0, k) =~= es);
    }
}

fn finished(r: &CourseResult) -> (b: bool)
    ensures
        b == counts(*r),
{
    same_text(r.status.as_str(), "OK") && r.position != 0
}

fn row_by_class(
    c: &Category,
    r: &CourseResult,
    o: &ResultProcessingOptions,
    known: bool,
    listed: bool,
) -> (x: Option<Result<StoredResult, IngestError>>)
    requires
        known == is_known_category(c.name@),
        listed == texts(classes()).contains(c.name@),
    ensures
        row_view(x) == by_class_row(*c, *r, *o),
{
    if !known || !finished(r) || (o.validate_club() && !is_ov_club(r.club.as_str())) {
        return None;
    }
    let age_class = if listed {
        match &r.age_class {
            Some(a) => a.clone(),
            None => match find_entered_class(&o.competitors, &r.name) {
                Some(a) => a,
                None => {
                    return Some(Err(IngestError::NoAgeClass(r.name.clone())));
                },
            },
        }
    } else {
        c.name.clone()
    };
    Some(
        Ok(
            StoredResult {
                name: r.name.clone(),
                club: r.club.clone(),
                category_name: c.name.clone(),
                age_class,
                position: r.position,
                time: r.time,
            },
        ),
    )
}

fn row_by_colored_course(
    c: &Category,
    r: &CourseResult,
    o: &ResultProcessingOptions,
    set: &IndexSet<String>,
    course_index: usize,
) -> (x: Option<Result<StoredResult, IngestError>>)
    requires
        set_items(*set) == first_appearances(texts(course_names())),
        course_name_of(c.name@) matches Some(cn) && course_rank(cn) == Some(course_index as int),
    ensures
        row_view(x) == colored_row(*c, *r, *o),
{
    if !finished(r) {
        return None;
    }
    let a = match &r.age_class {
        Some(a) => a,
        None => {
            return Some(Err(IngestError::MissingAgeClass(r.name.clone())));
        },
    };
    let age_class = override_age_class(&o.overrides, r.name.as_str(), a.as_str());
    let table = colored_courses();
    let course = match find_entry(&table, age_class.as_str()) {
        Some(course) => course,
        None => {
            return Some(Err(IngestError::UnknownAgeClass(r.name.clone())));
        },
    };
    let course_name = match get_course_name(course) {
        Some(n) => n,
        None => {
            return None;
        },
    };
    let result_index = match rank_in(set, course_name.as_str()) {
        Some(i) => i,
        None => {
            return Some(Err(IngestError::UnknownCourse(r.name.clone())));
        },
    };
    if result_index < course_index {
        return None;
    }
    Some(
        Ok(
            StoredResult {
                name: r.name.clone(),
                club: member_club_name(r.club.as_str()),
                category_name: c.name.clone(),
                age_class,
                position: r.position,
                time: r.time,
            },
        ),
    )
}

/// The results of an event's categories to store, in order: by category in the
/// championship or where asked for, else by coloured course.
pub fn results_to_store(categories: &Vec<Category>, options: &ResultProcessingOptions) -> (r: Result<
    Vec<StoredResult>,
    IngestError,
>)
    ensures
        match (r, plan(entries(categories@), *options)) {
            (Ok(rows), Ok(v)) => stored_views(rows@) == v,
            (Err(e), Err(f)) => e == f,
            _ => false,
        },
{
    let by_class = options.validate_club() || match options.results_by_class {
        Some(b) => b,
        None => false,
    };
    let set = ordered_set(&colored_course_names());
    let numbered = numbered_courses();
    let class_list = class_names();
    let mut rows: Vec<StoredResult> = Vec::new();
    let mut i: usize = 0;
    assert(categories@.subrange(0, 0) =~= Seq::<Category>::empty());
    assert(stored_views(rows@) =~= Seq::<StoredView>::empty());
    while i < categories.len()
        invariant
            i <= categories@.len(),
            by_class == stores_by_class(*options),
            set_items(set) == first_appearances(texts(course_names())),
            numbered@ == numbered_table(),
            class_list@ == classes(),
            plan(entries(categories@.subrange(0, i as int)), *options) == Ok::<
                Seq<StoredView>,
                IngestError,
            >(stored_views(rows@)),
        decreases categories@.len() - i,
    {
        let c = &categories[i];
        let ghost before = entries(categories@.subrange(0, i as int));
        let ghost pair = |x: CourseResult| (categories@[i as int], x);
        proof {
            assert(categories@.subrange(0, i + 1).drop_last() =~= categories@.subrange(0, i as int));
        }
        let listed = is_listed(&class_list, c.name.as_str());
        let known = find_entry(&numbered, c.name.as_str()).is_some() || listed;
        let course_index = if by_class {
            None
        } else {
            match get_course_name(c.name.as_str()) {
                Some(cn) => rank_in(&set, cn.as_str()),
                None => None,
            }
        };
        let mut j: usize = 0;
        while j < c.results.len()
            invariant
                j <= c.results@.len(),
                c == &categories@[i as int],
                i < categories@.len(),
                by_class == stores_by_class(*options),
                set_items(set) == first_appearances(texts(course_names())),
                known == is_known_category(c.name@),
                listed == texts(classes()).contains(c.name@),
                !by_class ==> (match course_index {
                    Some(k) => course_name_of(c.name@) matches Some(cn) && course_rank(cn) == Some(
                        k as int,
                    ),
                    None => course_name_of(c.name@) matches Some(cn) ==> course_rank(cn) is None,
                }),
                pair == (|x: CourseResult| (categories@[i as int], x)),
                before == entries(categories@.subrange(0, i as int)),
                plan(before + c.results@.subrange(0, j as int).map_values(pair), *options) == Ok::<
                    Seq<StoredView>,
                    IngestError,
                >(stored_views(rows@)),
            decreases c.results@.len() - j,
        {
            let r = &c.results[j];
            let ghost prefix = before + c.results@.subrange(0, j as int).map_values(pair);
            assert((before + c.results@.subrange(0, j + 1).map_values(pair)).drop_last() =~= prefix);
            assert((before + c.results@.subrange(0, j + 1).map_values(pair)).last() == (*c, *r));
            let x = if by_class {
                row_by_class(c, r, options, known, listed)
            } else {
                match course_index {
                    Some(k) => row_by_colored_course(c, r, options, &set, k),
                    None => None,
                }
            };
            match x {
                None => {},
                Some(Ok(row)) => {
                    let ghost old_rows = rows@;
                    rows.push(row);
                    assert(stored_views(rows@) =~= stored_views(old_rows).push(rows@.last()@));
                },
                Some(Err(e)) => {
                    proof {
                        let next = before + c.results@.subrange(0, j + 1).map_values(pair);
                        let whole = before + c.results@.map_values(pair);
                        assert(categories@.subrange(0, i + 1).drop_last() =~= categories@.subrange(
                            0,
                            i as int,
                        ));
                        assert(whole =~= entries(categories@.subrange(0, i + 1)));
                        lemma_entries_prefix(categories@, i + 1);
                        assert(next =~= whole.subrange(0, next.len() as int));
                        assert(next =~= entries(categories@).subrange(0, next.len() as int));
                        lemma_plan_error_stays(entries(categories@), next.len() as int, *options);
                    }
                    return Err(e);
                },
            }
            j = j + 1;
        }
        assert(c.results@.subrange(0, c.results@.len() as int) =~= c.results@);
        assert(before + c.results@.map_values(pair) =~= entries(categories@.subrange(0, i + 1)));
        i = i + 1;
    }
    assert(categories@.subrange(0, categories@.len() as int) =~= categories@);
    Ok(rows)
}

} // verus!
