//! Where a file lies, as a base directory and the components below it. Joining
//! them is left to the platform.

use crate::text;
use vstd::prelude::*;
use vstd::string::*;

verus! {

#[derive(Debug)]
pub struct Location {
    pub base: String,
    pub components: Vec<String>,
}

impl Location {
    pub open spec fn is(self, base: Seq<char>, components: Seq<Seq<char>>) -> bool {
        self.base@ == base && text::texts(self.components@) == components
    }

    /// A directory itself.
    pub fn at(base: &str) -> (r: Location)
        ensures
            r.is(base@, seq![]),
    {
        let r = Location { base: base.to_string(), components: Vec::new() };
        assert(text::texts(r.components@) =~= seq![]);
        r
    }

    /// The same place with one more component.
    pub fn join(self, component: &str) -> (r: Location)
        ensures
            r.is(self.base@, text::texts(self.components@).push(component@)),
    {
        broadcast use text::lemma_texts_push;

        let mut components = self.components;
        components.push(component.to_string());
        Location { base: self.base, components }
    }
}

} // verus!
