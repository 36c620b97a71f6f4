//! Entry lists in the IOF CompetitorList format.
use vstd::prelude::*;
use vstd::string::StringExecFns;
use crate::text::push_char;

verus! {

#[derive(Debug)]
pub struct CompetitorList {
    pub competitors: Vec<Competitor>,
}

#[derive(Debug)]
pub struct Competitor {
    pub person: Person,
    pub class: Class,
}

#[derive(Debug)]
pub struct Person {
    pub name: Name,
}

#[derive(Debug)]
pub struct Name {
    pub family: String,
    pub given: String,
}

#[derive(Debug)]
pub struct Class {
    pub name: String,
}

/// A runner's name as results carry it: given name, a space, family name.
pub open spec fn full_name(n: Name) -> Seq<char> {
    n.given@ + seq![' '] + n.family@
}

impl CompetitorList {
    /// The runners of the list with the category each entered.
    pub fn to_competitors(&self) -> (r: Vec<crate::Competitor>)
        ensures
            r@.len() == self.competitors@.len(),
            forall|i: int|
                0 <= i < r@.len() ==> (#[trigger] r@[i]).name@ == full_name(
                    self.competitors@[i].person.name,
                ) && r@[i].age_class@ == self.competitors@[i].class.name@,
    {
        let mut r: Vec<crate::Competitor> = Vec::new();
        let mut i: usize = 0;
        while i < self.competitors.len()
            invariant
                i <= self.competitors@.len(),
                r@.len() == i,
                forall|j: int|
                    0 <= j < i ==> (#[trigger] r@[j]).name@ == full_name(
                        self.competitors@[j].person.name,
                    ) && r@[j].age_class@ == self.competitors@[j].class.name@,
            decreases self.competitors@.len() - i,
        {
            let c = &self.competitors[i];
            let mut name = String::from_str(c.person.name.given.as_str());
            push_char(&mut name, ' ');
            name.append(c.person.name.family.as_str());
            assert(name@ =~= full_name(c.person.name));
            r.push(crate::Competitor::new(name, c.class.name.clone()));
            i = i + 1;
        }
        r
    }
}

} // verus!
