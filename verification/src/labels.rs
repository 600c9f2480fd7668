//! The label table: a mapping from label names to 64-bit values.
//!
//! During the first pass a label maps to the index of the line that declares
//! it; the second pass overwrites every entry with the label's byte address.
//! The table is a plain association list whose view is the mathematical map
//! with last-inserted-wins semantics.

use vstd::prelude::*;

verus! {

/// Compares two character vectors for equality.
pub fn eq_chars(a: &Vec<char>, b: &Vec<char>) -> (r: bool)
    ensures
        r == (a@ == b@),
{
    if a.len() != b.len() {
        return false;
    }
    let mut i: usize = 0;
    while i < a.len()
        invariant
            0 <= i <= a@.len(),
            a@.len() == b@.len(),
            forall|j: int| 0 <= j < i ==> a@[j] == b@[j],
        decreases a@.len() - i,
    {
        if a[i] != b[i] {
            return false;
        }
        i = i + 1;
    }
    proof {
        assert(a@ =~= b@);
    }
    true
}

/// The map described by an association list, later entries winning.
pub open spec fn spec_entries_map(s: Seq<(Vec<char>, u64)>) -> Map<Seq<char>, u64>
    decreases s.len(),
{
    if s.len() == 0 {
        Map::empty()
    } else {
        spec_entries_map(s.drop_last()).insert(s.last().0@, s.last().1)
    }
}

/// A mapping from label names to 64-bit values.
pub struct LabelTable {
    entries: Vec<(Vec<char>, u64)>,
}

impl View for LabelTable {
    type V = Map<Seq<char>, u64>;

    closed spec fn view(&self) -> Map<Seq<char>, u64> {
        spec_entries_map(self.entries@)
    }
}

impl LabelTable {
    /// An empty table.
    pub fn new() -> (r: LabelTable)
        ensures
            r@ == Map::<Seq<char>, u64>::empty(),
    {
        LabelTable { entries: Vec::new() }
    }

    /// The value bound to `key`, if any.
    #[verifier::loop_isolation(false)]
    pub fn get(&self, key: &Vec<char>) -> (r: Option<u64>)
        ensures
            self@.contains_key(key@) ==> r == Some(self@[key@]),
            !self@.contains_key(key@) ==> r is None,
    {
        let mut i: usize = self.entries.len();
        proof {
            assert(self.entries@.take(i as int) =~= self.entries@);
        }
        while i > 0
            invariant
                0 <= i <= self.entries@.len(),
                spec_entries_map(self.entries@.take(i as int)).contains_key(key@)
                    == self@.contains_key(key@),
                self@.contains_key(key@) ==> spec_entries_map(self.entries@.take(i as int))[key@]
                    == self@[key@],
            decreases i,
        {
            i = i - 1;
            proof {
                assert(self.entries@.take(i + 1).drop_last() =~= self.entries@.take(i as int));
                assert(self.entries@.take(i + 1).last() == self.entries@[i as int]);
            }
            if eq_chars(&self.entries[i].0, key) {
                return Some(self.entries[i].1);
            }
        }
        proof {
            assert(self.entries@.take(0) =~= Seq::<(Vec<char>, u64)>::empty());
        }
        None
    }

    /// True when `key` is bound.
    pub fn contains(&self, key: &Vec<char>) -> (r: bool)
        ensures
            r == self@.contains_key(key@),
    {
        match self.get(key) {
            Some(_) => true,
            None => false,
        }
    }

    /// Binds `key` to `value`, returning whether the key was already bound.
    pub fn insert(&mut self, key: Vec<char>, value: u64) -> (was_present: bool)
        ensures
            final(self)@ == old(self)@.insert(key@, value),
            was_present == old(self)@.contains_key(key@),
    {
        let was_present = self.contains(&key);
        proof {
            assert(self.entries@.push((key, value)).drop_last() =~= self.entries@);
        }
        self.entries.push((key, value));
        was_present
    }
}

} // verus!
