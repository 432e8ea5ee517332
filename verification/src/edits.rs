//! The log of edits that a run collects.

use crate::model::Edit;
use crate::model::ProgPoint;
use vstd::prelude::*;
use vstd::std_specs::slice::into_iter_elts;

verus! {

/// The edits collected so far, each with the point at which it is to be
/// placed, in the order in which they were pushed.
#[derive(Clone, Debug)]
pub struct Edits {
    edits: Vec<(ProgPoint, Edit)>,
}

impl View for Edits {
    type V = Seq<(ProgPoint, Edit)>;

    closed spec fn view(&self) -> Seq<(ProgPoint, Edit)> {
        self.edits@
    }
}

impl Edits {
    /// An empty log.
    pub fn new() -> (edits: Self)
        ensures
            edits@ == Seq::<(ProgPoint, Edit)>::empty(),
    {
        Self { edits: Vec::new() }
    }

    /// Adds `edit`, to be placed at `point`, behind all the edits pushed
    /// before.
    pub fn push(&mut self, point: ProgPoint, edit: Edit)
        ensures
            final(self)@ == old(self)@.push((point, edit)),
    {
        self.edits.push((point, edit));
    }

    /// How many edits the log holds.
    pub fn len(&self) -> (n: usize)
        ensures
            n == self@.len(),
    {
        self.edits.len()
    }

    /// The edit at position `i` of the log.
    pub fn get(&self, i: usize) -> (entry: (ProgPoint, Edit))
        requires
            i < self@.len(),
        ensures
            entry == self@[i as int],
    {
        self.edits[i]
    }

    /// An iterator over the edits in the order in which they were pushed.
    pub fn iter(&self) -> (iter: std::slice::Iter<'_, (ProgPoint, Edit)>)
        ensures
            into_iter_elts(iter) == self@,
    {
        let iter = (&self.edits).into_iter();
        proof {
            broadcast use vstd::std_specs::vec::axiom_spec_into_iter_borrowed;

            assert(self.edits@.as_ref().unref() =~= self.edits@);
        }
        iter
    }

    /// The edits, in the order in which they were pushed.
    pub fn to_vec(self) -> (edits: Vec<(ProgPoint, Edit)>)
        ensures
            edits@ == self@,
    {
        self.edits
    }
}

} // verus!
