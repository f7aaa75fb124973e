//! Paired mutable access into a flat collection: contact resolution must
//! update two distinct entries of one body list at once.

use vstd::prelude::*;

verus! {

/// Borrow two distinct entries of a collection mutably at once.
pub trait BorrowMutTwo<T> {
    /// The entries of the collection.
    spec fn entries(&self) -> Seq<T>;

    /// Mutable references to the two distinct entries at `index1` and
    /// `index2`.
    fn get_two_mut(&mut self, index1: usize, index2: usize) -> (r: (&mut T, &mut T))
        requires
            index1 < old(self).entries().len(),
            index2 < old(self).entries().len(),
            index1 != index2,
        ensures
            *r.0 == old(self).entries()[index1 as int],
            *r.1 == old(self).entries()[index2 as int],
            final(self).entries() == old(self).entries().update(
                index1 as int,
                *final(r.0),
            ).update(index2 as int, *final(r.1)),
    ;
}

impl<T> BorrowMutTwo<T> for Vec<T> {
    open spec fn entries(&self) -> Seq<T> {
        self@
    }

    fn get_two_mut(&mut self, index1: usize, index2: usize) -> (r: (&mut T, &mut T)) {
        if index1 > index2 {
            let (a, b) = self.as_mut_slice().split_at_mut(index1);
            (&mut b[0], &mut a[index2])
        } else {
            let (a, b) = self.as_mut_slice().split_at_mut(index2);
            (&mut a[index1], &mut b[0])
        }
    }
}

} // verus!
