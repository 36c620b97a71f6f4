//! Results of one event as the results service publishes them.
use chrono::NaiveTime;
use vstd::prelude::*;

verus! {

#[verifier::external_type_specification]
#[verifier::external_body]
pub struct ExNaiveTime(NaiveTime);

/// One runner's result on a course or in a category.
#[derive(Debug)]
pub struct CourseResult {
    pub name: String,
    pub club: String,
    pub age_class: Option<String>,
    pub position: u32,
    pub time: NaiveTime,
    pub status: String,
}

/// A course or category of an event with its results.
#[derive(Debug)]
pub struct Category {
    pub name: String,
    pub distance: u32,
    pub climb: u32,
    pub results: Vec<CourseResult>,
}

} // verus!
