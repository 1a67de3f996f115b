//! Paths below a directory. How a path is written is left to the caller, whose
//! type for it is `P`.
use vstd::prelude::*;

use crate::text;

verus! {

/// The path that leads from `base` down through `names`.
#[derive(Debug)]
pub struct Under<P> {
    pub base: P,
    pub names: Vec<String>,
}

impl<P> Under<P> {
    /// This is the path from `base` down through these names.
    pub open spec fn leads(self, base: P, names: Seq<Seq<char>>) -> bool {
        self.base == base && text::texts(self.names@) == names
    }

    /// The path from `base` down through these names.
    pub fn new(base: P, names: Vec<&str>) -> (r: Under<P>)
        ensures
            r.leads(base, text::str_texts(names@)),
    {
        let mut owned: Vec<String> = Vec::new();
        text::push_all(&mut owned, names);
        assert(text::texts(owned@) =~= text::str_texts(names@));
        Under { base, names: owned }
    }
}

} // verus!
