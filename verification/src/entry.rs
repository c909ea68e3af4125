//! A single text record, owned by the store that holds it.

use vstd::prelude::*;

verus! {

/// One user-authored text record. The description may be empty and may
/// span several lines.
#[derive(Debug)]
pub struct Entry {
    description: String,
}

impl View for Entry {
    type V = Seq<char>;

    closed spec fn view(&self) -> Seq<char> {
        self.description@
    }
}

/// The descriptions a sequence of entries holds, in order.
pub open spec fn views_of(v: Seq<Entry>) -> Seq<Seq<char>> {
    Seq::new(v.len(), |i: int| v[i]@)
}

impl Entry {
    /// Wraps raw text as the entry's description. Any text is accepted,
    /// including the empty string.
    pub fn from(raw_text: &str) -> (e: Entry)
        ensures
            e@ == raw_text@,
    {
        Entry { description: raw_text.to_owned() }
    }

    /// The entry's description, verbatim.
    pub fn description(&self) -> (r: &str)
        ensures
            r@ == self@,
    {
        self.description.as_str()
    }
}

} // verus!
