//! The set of selected entities, owned by whoever runs the tick and handed to
//! the system by reference.

use vstd::prelude::*;

verus! {

/// The ids that occur in a list.
pub open spec fn id_set(ids: Seq<u32>) -> Set<u32> {
    Set::new(|id: u32| ids.contains(id))
}

/// Whether `id` occurs in `ids`.
pub fn contains_id(ids: &Vec<u32>, id: u32) -> (found: bool)
    ensures
        found == id_set(ids@).contains(id),
{
    let mut i: usize = 0;
    while i < ids.len()
        invariant
            i <= ids.len(),
            forall|j: int| 0 <= j < i ==> ids@[j] != id,
        decreases ids.len() - i,
    {
        if ids[i] == id {
            return true;
        }
        i += 1;
    }
    false
}

/// The selected entities, each id once as long as only `insert` adds them.
#[derive(Clone, Debug)]
pub struct SelectedUnits {
    pub ids: Vec<u32>,
}

impl View for SelectedUnits {
    type V = Set<u32>;

    open spec fn view(&self) -> Set<u32> {
        id_set(self.ids@)
    }
}

impl SelectedUnits {
    /// Nothing selected.
    pub fn new() -> (s: SelectedUnits)
        ensures
            s@ =~= Set::<u32>::empty(),
            s.ids@ == Seq::<u32>::empty(),
    {
        SelectedUnits { ids: Vec::new() }
    }

    /// Whether `id` is selected.
    pub fn contains(&self, id: u32) -> (found: bool)
        ensures
            found == self@.contains(id),
    {
        contains_id(&self.ids, id)
    }

    /// Deselects everything.
    pub fn clear(&mut self)
        ensures
            final(self)@ =~= Set::<u32>::empty(),
            final(self).ids@ == Seq::<u32>::empty(),
    {
        self.ids = Vec::new();
    }

    /// Selects `id`, which changes nothing if it is selected already.
    pub fn insert(&mut self, id: u32)
        ensures
            final(self)@ =~= old(self)@.insert(id),
            final(self).ids@ == if old(self)@.contains(id) {
                old(self).ids@
            } else {
                old(self).ids@.push(id)
            },
    {
        if !contains_id(&self.ids, id) {
            let ghost before = self.ids@;
            self.ids.push(id);
            assert forall|other: u32| id_set(self.ids@).contains(other) == id_set(before).insert(
                id,
            ).contains(other) by {
                if other == id {
                    assert(self.ids@[before.len() as int] == id);
                } else if before.contains(other) {
                    let k = choose|k: int| 0 <= k < before.len() && before[k] == other;
                    assert(self.ids@[k] == other);
                } else if self.ids@.contains(other) {
                    let k = choose|k: int| 0 <= k < self.ids@.len() && self.ids@[k] == other;
                    assert(before[k] == other);
                }
            }
        }
    }
}

} // verus!
