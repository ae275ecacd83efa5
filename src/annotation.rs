use vstd::prelude::*;
use crate::timestamp::Timestamp;

verus! {

/// A note attached to a task, with the time it was made.
#[derive(Debug)]
pub struct Annotation {
    pub entry: Timestamp,
    pub description: String,
}

impl Annotation {
    pub fn new(entry: Timestamp, description: &str) -> (r: Annotation)
        ensures
            r.entry == entry,
            r.description@ == description@,
    {
        Annotation { entry, description: String::from_str(description) }
    }

    pub fn entry(&self) -> (r: Timestamp)
        ensures
            r == self.entry,
    {
        self.entry
    }

    pub fn description(&self) -> (r: String)
        ensures
            r@ == self.description@,
    {
        self.description.clone()
    }

    /// The description, as the annotation reads.
    pub fn to_s(&self) -> (r: String)
        ensures
            r@ == self.description@,
    {
        self.description.clone()
    }

    pub fn eql(&self, other: &Annotation) -> (r: bool)
        ensures
            r == (self.entry == other.entry && self.description@ == other.description@),
    {
        self.entry == other.entry && self.description == other.description
    }
}

} // verus!
