//! The store: an ordered collection of entries with indexed CRUD, a
//! persisted form, and rendering. Entries are addressed by their 1-based
//! display number, which is their current position; numbers shift when an
//! earlier entry is deleted.

use vstd::prelude::*;

use crate::codec::decode_entries_exec;
use crate::codec::encode_entries;
use crate::codec::encode_entries_exec;
use crate::codec::parse_entries;
use crate::entry::Entry;
use crate::entry::views_of;
use crate::render::markdown_exec;
use crate::render::markdown_of;
use crate::render::overview_exec;
use crate::render::overview_of;
use crate::StoreError;

verus! {

/// Does a display number address an entry of a store of `len` entries?
/// Valid numbers are exactly `1` through `len`.
pub open spec fn in_range(number: int, len: nat) -> bool {
    1 <= number <= len
}

/// Deleting the entry at display number `k` keeps every other entry's
/// description: entries before `k` keep their numbers, entries after `k`
/// move down one display position.
pub proof fn lemma_delete_renumbers(es: Seq<Seq<char>>, k: int, j: int)
    requires
        in_range(k, es.len()),
        in_range(j, es.len()),
        j != k,
    ensures
        j < k ==> es.remove(k - 1)[j - 1] == es[j - 1],
        j > k ==> es.remove(k - 1)[j - 2] == es[j - 1],
{
}

/// The ordered collection of entries. Its view is the sequence of
/// descriptions, in insertion order.
#[derive(Debug)]
pub struct Db {
    entries: Vec<Entry>,
}

impl View for Db {
    type V = Seq<Seq<char>>;

    closed spec fn view(&self) -> Seq<Seq<char>> {
        views_of(self.entries@)
    }
}

impl Db {
    /// A store with no entries.
    pub fn new() -> (db: Db)
        ensures
            db@ == Seq::<Seq<char>>::empty(),
    {
        let db = Db { entries: Vec::new() };
        proof {
            assert(db@ =~= Seq::<Seq<char>>::empty());
        }
        db
    }

    /// Loads a store from what was persisted at its location: `None`
    /// when nothing was ever persisted there (a fresh user, not an
    /// error), the location's text otherwise. Corrupt text is rejected.
    pub fn read(persisted: Option<&str>) -> (r: Result<Db, StoreError>)
        ensures
            persisted is None ==> (r matches Ok(db) && db@ == Seq::<Seq<char>>::empty()),
            persisted matches Some(s) ==> {
                &&& (r is Ok <==> parse_entries(s@) is Some)
                &&& (r matches Ok(db) ==> Some(db@) == parse_entries(s@))
                &&& (r matches Err(e) ==> e == StoreError::CorruptState)
            },
    {
        match persisted {
            None => Ok(Db::new()),
            Some(s) => match decode_entries_exec(s) {
                Ok(v) => Ok(Db { entries: v }),
                Err(e) => Err(e),
            },
        }
    }

    /// The text to persist: the full ordered sequence of descriptions in
    /// the store's self-describing persisted form. Writing this text and
    /// reading it back reproduces the store exactly
    /// (`crate::codec::lemma_round_trip`).
    pub fn write(&self) -> (out: String)
        ensures
            out@ == encode_entries(self@),
    {
        encode_entries_exec(&self.entries)
    }

    /// True exactly when the store has no entries.
    pub fn is_empty(&self) -> (r: bool)
        ensures
            r == (self@.len() == 0),
    {
        self.entries.is_empty()
    }

    /// How many entries the store holds.
    pub fn len(&self) -> (r: usize)
        ensures
            r == self@.len(),
    {
        self.entries.len()
    }

    /// Appends an entry at the end; its display number becomes the new
    /// length. Always succeeds.
    pub fn push_entry(&mut self, entry: Entry)
        ensures
            final(self)@ == old(self)@.push(entry@),
    {
        let ghost entry_view = entry@;
        self.entries.push(entry);
        proof {
            assert(self@ =~= old(self)@.push(entry_view));
        }
    }

    /// The position addressed by a display number, or `None` when the
    /// number is out of range.
    fn resolve(&self, number: i64) -> (r: Option<usize>)
        ensures
            match r {
                Some(i) => in_range(number as int, self@.len()) && i == number - 1,
                None => !in_range(number as int, self@.len()),
            },
    {
        if number < 1 {
            return None;
        }
        let idx = (number as u64) - 1;
        if idx >= self.entries.len() as u64 {
            return None;
        }
        Some(idx as usize)
    }

    /// The description at 1-based position `number`; out-of-range
    /// numbers (zero, negative, or past the end) are rejected.
    pub fn get_entry_description(&self, number: i64) -> (r: Result<&str, StoreError>)
        ensures
            in_range(number as int, self@.len()) ==> (r matches Ok(d) && d@ == self@[number - 1]),
            !in_range(number as int, self@.len()) ==> (r matches Err(e) && e
                == StoreError::IndexOutOfRange),
    {
        match self.resolve(number) {
            Some(i) => Ok(self.entries[i].description()),
            None => Err(StoreError::IndexOutOfRange),
        }
    }

    /// Removes the entry at 1-based position `number`; every later entry
    /// shifts down one display position. Out-of-range numbers are
    /// rejected and the store is unchanged.
    pub fn delete_entry(&mut self, number: i64) -> (r: Result<(), StoreError>)
        ensures
            in_range(number as int, old(self)@.len()) ==> (r is Ok && final(self)@ == old(
                self,
            )@.remove(number - 1)),
            !in_range(number as int, old(self)@.len()) ==> (r matches Err(e) && e
                == StoreError::IndexOutOfRange && final(self)@ == old(self)@),
    {
        match self.resolve(number) {
            Some(i) => {
                self.entries.remove(i);
                proof {
                    assert(self@ =~= old(self)@.remove(number - 1));
                }
                Ok(())
            },
            None => Err(StoreError::IndexOutOfRange),
        }
    }

    /// Overwrites the description at 1-based position `number` in place;
    /// the entry keeps its position and every other entry is untouched.
    /// Out-of-range numbers are rejected and the store is unchanged.
    pub fn replace_entry_description(&mut self, number: i64, new_text: String) -> (r: Result<
        (),
        StoreError,
    >)
        ensures
            in_range(number as int, old(self)@.len()) ==> (r is Ok && final(self)@ == old(
                self,
            )@.update(number - 1, new_text@)),
            !in_range(number as int, old(self)@.len()) ==> (r matches Err(e) && e
                == StoreError::IndexOutOfRange && final(self)@ == old(self)@),
    {
        match self.resolve(number) {
            Some(i) => {
                let entry = Entry::from(new_text.as_str());
                self.entries[i] = entry;
                proof {
                    assert(self@ =~= old(self)@.update(number - 1, new_text@));
                }
                Ok(())
            },
            None => Err(StoreError::IndexOutOfRange),
        }
    }

    /// The human-readable listing: one line per entry, in order, each
    /// with its current 1-based display number and a deterministic
    /// preview of the description. Regenerated fresh on every call, so
    /// it always agrees with the sequence.
    pub fn entry_overview(&self) -> (out: String)
        ensures
            out@ == overview_of(self@),
    {
        overview_exec(&self.entries)
    }

    /// The whole collection as one markdown document, every description
    /// verbatim. The empty store renders to the empty document.
    pub fn markdown(&self) -> (out: String)
        ensures
            out@ == markdown_of(self@),
    {
        markdown_exec(&self.entries)
    }
}

} // verus!
