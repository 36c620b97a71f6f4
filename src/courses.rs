//! The static course tables: which course each age category runs, and from which
//! category and course a runner may bring results into a new category mid-season.
use vstd::prelude::*;
use crate::text::same_text;

verus! {

/// Course number (as a single digit) of each age category, in the numbered scheme
/// (course 1 the longest, course 8 the shortest).
pub open spec fn numbered_table() -> Seq<(&'static str, &'static str)> {
    seq![
        ("H-20", "1"),
        ("H21", "1"),
        ("H35", "1"),
        ("H-18", "2"),
        ("H40", "2"),
        ("H45", "2"),
        ("H50", "2"),
        ("D-20", "2"),
        ("D21", "2"),
        ("H-16", "3"),
        ("H55", "3"),
        ("H60", "3"),
        ("D-16", "3"),
        ("D-18", "3"),
        ("D35", "3"),
        ("D40", "3"),
        ("D45", "3"),
        ("H-14", "4"),
        ("H65", "4"),
        ("D-14", "4"),
        ("D50", "4"),
        ("D55", "4"),
        ("H10B", "8"),
        ("H-10", "8"),
        ("H-12", "5"),
        ("H70", "5"),
        ("H75", "5"),
        ("H80", "6"),
        ("H85", "6"),
        ("H90", "6"),
        ("D10B", "8"),
        ("D-10", "8"),
        ("D-12", "5"),
        ("D60", "5"),
        ("D65", "5"),
        ("D70", "6"),
        ("D75", "6"),
        ("D80", "6"),
        ("D85", "6"),
        ("D90", "6"),
    ]
}

/// Course name of each age category, in the scheme of coloured courses.
pub open spec fn colored_table() -> Seq<(&'static str, &'static str)> {
    seq![
        ("H-20", "H:Zwart Extra Lang"),
        ("H21", "H:Zwart Extra Lang"),
        ("H35", "H:Zwart Extra Lang"),
        ("H-18", "H:Zwart Lang"),
        ("H40", "H:Zwart Lang"),
        ("H45", "H:Zwart Lang"),
        ("H50", "H:Zwart Lang"),
        ("D-20", "D:Zwart Lang"),
        ("D21", "D:Zwart Lang"),
        ("H-16", "H:Zwart Midden"),
        ("H55", "H:Zwart Midden"),
        ("H60", "H:Zwart Midden"),
        ("D-16", "D:Zwart Midden"),
        ("D-18", "D:Zwart Midden"),
        ("D35", "D:Zwart Midden"),
        ("D40", "D:Zwart Midden"),
        ("D45", "D:Zwart Midden"),
        ("H-14", "H:Rood Midden"),
        ("H65", "H:Zwart Midden"),
        ("D-14", "D:Rood Midden"),
        ("D50", "D:Zwart Midden"),
        ("D55", "D:Zwart Midden"),
        ("H10B", "H:Groen Kort"),
        ("H-10", "H:Groen Kort"),
        ("H-12", "H:Blauw Kort"),
        ("H70", "H:Zwart Kort"),
        ("H75", "H:Zwart Kort"),
        ("H80", "H:Blauw Kort"),
        ("H85", "H:Blauw Kort"),
        ("H90", "H:Blauw Kort"),
        ("D10B", "D:Groen Kort"),
        ("D-10", "D:Groen Kort"),
        ("D-12", "D:Blauw Kort"),
        ("D60", "D:Zwart Kort"),
        ("D65", "D:Zwart Kort"),
        ("D70", "D:Blauw Kort"),
        ("D75", "D:Blauw Kort"),
        ("D80", "D:Blauw Kort"),
        ("D85", "D:Blauw Kort"),
        ("D90", "D:Blauw Kort"),
    ]
}

/// For a category: the category a runner may have come from mid-season, and the
/// course on which that earlier category's results must have been run.
pub open spec fn class_change_table() -> Seq<(&'static str, (&'static str, &'static str))> {
    seq![
        ("H-20", ("H-18", "H:02")),
        ("H21", ("H-20", "H:01")),
        ("H-18", ("H-16", "H:03")),
        ("H40", ("H35", "H:01")),
        ("H45", ("H40", "H:02")),
        ("H50", ("H45", "H:02")),
        ("D-20", ("D-18", "D:03")),
        ("D21", ("D-20", "D:02")),
        ("H-16", ("H-14", "H:04")),
        ("H55", ("H50", "H:02")),
        ("H60", ("H55", "H:03")),
        ("D-16", ("D-14", "D:04")),
        ("D-18", ("D-16", "D:03")),
        ("D35", ("D21", "D:02")),
        ("D40", ("D35", "D:03")),
        ("D45", ("D40", "D:03")),
        ("H-14", ("H-12", "H:05")),
        ("H65", ("H60", "H:03")),
        ("D-14", ("D-12", "D:05")),
        ("D50", ("D45", "D:03")),
        ("D55", ("D50", "D:04")),
        ("H-12", ("H-10", "H:08")),
        ("H70", ("H65", "H:04")),
        ("H75", ("H70", "H:05")),
        ("H80", ("H75", "H:05")),
        ("H85", ("H80", "H:06")),
        ("H90", ("H85", "H:06")),
        ("D-12", ("D-10", "D:08")),
        ("D60", ("D55", "D:04")),
        ("D65", ("D60", "D:05")),
        ("D70", ("D65", "D:05")),
        ("D75", ("D70", "D:06")),
        ("D80", ("D75", "D:06")),
        ("D85", ("D80", "D:06")),
        ("D90", ("D85", "D:06")),
    ]
}

/// The value stored under the first key of `t` that reads `k`.
pub open spec fn lookup<V>(t: Seq<(&'static str, V)>, k: Seq<char>) -> Option<V>
    decreases t.len(),
{
    if t.len() == 0 {
        None
    } else if t[0].0@ == k {
        Some(t[0].1)
    } else {
        lookup(t.drop_first(), k)
    }
}

/// Finds the value stored under key `k` in a table.
pub fn find_entry<V: Copy>(t: &Vec<(&'static str, V)>, k: &str) -> (r: Option<V>)
    ensures
        r == lookup(t@, k@),
{
    let n = t.len();
    let mut i: usize = 0;
    assert(t@.subrange(0, n as int) =~= t@);
    while i < n
        invariant
            n == t@.len(),
            i <= n,
            lookup(t@, k@) == lookup(t@.subrange(i as int, n as int), k@),
        decreases n - i,
    {
        assert(t@.subrange(i as int, n as int).drop_first() =~= t@.subrange(i + 1, n as int));
        if same_text(t[i].0, k) {
            return Some(t[i].1);
        }
        i = i + 1;
    }
    None
}

/// The numbered course table.
pub fn numbered_courses() -> (t: Vec<(&'static str, &'static str)>)
    ensures
        t@ == numbered_table(),
{
    let t = vec![
        ("H-20", "1"),
        ("H21", "1"),
        ("H35", "1"),
        ("H-18", "2"),
        ("H40", "2"),
        ("H45", "2"),
        ("H50", "2"),
        ("D-20", "2"),
        ("D21", "2"),
        ("H-16", "3"),
        ("H55", "3"),
        ("H60", "3"),
        ("D-16", "3"),
        ("D-18", "3"),
        ("D35", "3"),
        ("D40", "3"),
        ("D45", "3"),
        ("H-14", "4"),
        ("H65", "4"),
        ("D-14", "4"),
        ("D50", "4"),
        ("D55", "4"),
        ("H10B", "8"),
        ("H-10", "8"),
        ("H-12", "5"),
        ("H70", "5"),
        ("H75", "5"),
        ("H80", "6"),
        ("H85", "6"),
        ("H90", "6"),
        ("D10B", "8"),
        ("D-10", "8"),
        ("D-12", "5"),
        ("D60", "5"),
        ("D65", "5"),
        ("D70", "6"),
        ("D75", "6"),
        ("D80", "6"),
        ("D85", "6"),
        ("D90", "6"),
    ];
    assert(t@ =~= numbered_table());
    t
}

/// The coloured course table.
pub fn colored_courses() -> (t: Vec<(&'static str, &'static str)>)
    ensures
        t@ == colored_table(),
{
    let t = vec![
        ("H-20", "H:Zwart Extra Lang"),
        ("H21", "H:Zwart Extra Lang"),
        ("H35", "H:Zwart Extra Lang"),
        ("H-18", "H:Zwart Lang"),
        ("H40", "H:Zwart Lang"),
        ("H45", "H:Zwart Lang"),
        ("H50", "H:Zwart Lang"),
        ("D-20", "D:Zwart Lang"),
        ("D21", "D:Zwart Lang"),
        ("H-16", "H:Zwart Midden"),
        ("H55", "H:Zwart Midden"),
        ("H60", "H:Zwart Midden"),
        ("D-16", "D:Zwart Midden"),
        ("D-18", "D:Zwart Midden"),
        ("D35", "D:Zwart Midden"),
        ("D40", "D:Zwart Midden"),
        ("D45", "D:Zwart Midden"),
        ("H-14", "H:Rood Midden"),
        ("H65", "H:Zwart Midden"),
        ("D-14", "D:Rood Midden"),
        ("D50", "D:Zwart Midden"),
        ("D55", "D:Zwart Midden"),
        ("H10B", "H:Groen Kort"),
        ("H-10", "H:Groen Kort"),
        ("H-12", "H:Blauw Kort"),
        ("H70", "H:Zwart Kort"),
        ("H75", "H:Zwart Kort"),
        ("H80", "H:Blauw Kort"),
        ("H85", "H:Blauw Kort"),
        ("H90", "H:Blauw Kort"),
        ("D10B", "D:Groen Kort"),
        ("D-10", "D:Groen Kort"),
        ("D-12", "D:Blauw Kort"),
        ("D60", "D:Zwart Kort"),
        ("D65", "D:Zwart Kort"),
        ("D70", "D:Blauw Kort"),
        ("D75", "D:Blauw Kort"),
        ("D80", "D:Blauw Kort"),
        ("D85", "D:Blauw Kort"),
        ("D90", "D:Blauw Kort"),
    ];
    assert(t@ =~= colored_table());
    t
}

/// The table of allowed category changes.
pub fn class_changes() -> (t: Vec<(&'static str, (&'static str, &'static str))>)
    ensures
        t@ == class_change_table(),
{
    let t = vec![
        ("H-20", ("H-18", "H:02")),
        ("H21", ("H-20", "H:01")),
        ("H-18", ("H-16", "H:03")),
        ("H40", ("H35", "H:01")),
        ("H45", ("H40", "H:02")),
        ("H50", ("H45", "H:02")),
        ("D-20", ("D-18", "D:03")),
        ("D21", ("D-20", "D:02")),
        ("H-16", ("H-14", "H:04")),
        ("H55", ("H50", "H:02")),
        ("H60", ("H55", "H:03")),
        ("D-16", ("D-14", "D:04")),
        ("D-18", ("D-16", "D:03")),
        ("D35", ("D21", "D:02")),
        ("D40", ("D35", "D:03")),
        ("D45", ("D40", "D:03")),
        ("H-14", ("H-12", "H:05")),
        ("H65", ("H60", "H:03")),
        ("D-14", ("D-12", "D:05")),
        ("D50", ("D45", "D:03")),
        ("D55", ("D50", "D:04")),
        ("H-12", ("H-10", "H:08")),
        ("H70", ("H65", "H:04")),
        ("H75", ("H70", "H:05")),
        ("H80", ("H75", "H:05")),
        ("H85", ("H80", "H:06")),
        ("H90", ("H85", "H:06")),
        ("D-12", ("D-10", "D:08")),
        ("D60", ("D55", "D:04")),
        ("D65", ("D60", "D:05")),
        ("D70", ("D65", "D:05")),
        ("D75", ("D70", "D:06")),
        ("D80", ("D75", "D:06")),
        ("D85", ("D80", "D:06")),
        ("D90", ("D85", "D:06")),
    ];
    assert(t@ =~= class_change_table());
    t
}

} // verus!
