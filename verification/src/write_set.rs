//! Write sets: the changes that a transaction makes to global storage.

use crate::access_path::{AccessPath, PathKey};
use vstd::prelude::*;

verus! {

/// One change: the data under a path is deleted, or replaced by a value.
#[derive(Clone, Debug, PartialEq, Eq, Hash)]
pub enum WriteOp {
    Deletion,
    Value(Vec<u8>),
}

/// A change as contracts see it.
pub enum OpView {
    Deletion,
    Value(Seq<u8>),
}

impl View for WriteOp {
    type V = OpView;

    open spec fn view(&self) -> OpView {
        match self {
            WriteOp::Deletion => OpView::Deletion,
            WriteOp::Value(blob) => OpView::Value(blob@),
        }
    }
}

/// The entries of a write set as contracts see them.
pub open spec fn entries_view(entries: Seq<(AccessPath, WriteOp)>) -> Seq<(PathKey, OpView)> {
    Seq::new(entries.len(), |i: int| (entries[i].0@, entries[i].1@))
}

/// A write set that is still being put together.
#[derive(Clone, Debug, PartialEq, Eq)]
pub struct WriteSetMut {
    write_set: Vec<(AccessPath, WriteOp)>,
}

impl View for WriteSetMut {
    type V = Seq<(PathKey, OpView)>;

    closed spec fn view(&self) -> Seq<(PathKey, OpView)> {
        entries_view(self.write_set@)
    }
}

/// A write set that was put together and checked.
#[derive(Clone, Debug, PartialEq, Eq)]
pub struct WriteSet {
    entries: WriteSetMut,
}

impl View for WriteSet {
    type V = Seq<(PathKey, OpView)>;

    closed spec fn view(&self) -> Seq<(PathKey, OpView)> {
        self.entries@
    }
}

/// Why a write set was refused.
#[derive(Clone, Copy, Debug, PartialEq, Eq, Structural)]
pub enum WriteSetError {
    /// The changes do not make a write set.
    Malformed,
}

impl WriteSetMut {
    /// The write set in the making that holds the given changes.
    pub fn new(write_set: Vec<(AccessPath, WriteOp)>) -> (w: Self)
        ensures
            w@ == entries_view(write_set@),
    {
        WriteSetMut { write_set }
    }

    /// Adds a change at the end.
    pub fn push(&mut self, item: (AccessPath, WriteOp))
        ensures
            final(self)@ == old(self)@.push((item.0@, item.1@)),
    {
        self.write_set.push(item);
        assert(self@ =~= old(self)@.push((item.0@, item.1@)));
    }

    /// The number of changes.
    pub fn len(&self) -> (n: usize)
        ensures
            n == self@.len(),
    {
        self.write_set.len()
    }

    /// Whether there is no change.
    pub fn is_empty(&self) -> (r: bool)
        ensures
            r == (self@.len() == 0),
    {
        self.write_set.len() == 0
    }

    /// Closes the write set. Every list of changes makes one.
    pub fn freeze(self) -> (r: Result<WriteSet, WriteSetError>)
        ensures
            r matches Ok(w) && w@ == self@,
    {
        Ok(WriteSet { entries: self })
    }
}

impl WriteSet {
    /// The number of changes.
    pub fn len(&self) -> (n: usize)
        ensures
            n == self@.len(),
    {
        self.entries.len()
    }

    /// Whether there is no change.
    pub fn is_empty(&self) -> (r: bool)
        ensures
            r == (self@.len() == 0),
    {
        self.entries.is_empty()
    }

    /// The change at index `i`.
    pub fn get(&self, i: usize) -> (r: &(AccessPath, WriteOp))
        requires
            i < self@.len(),
        ensures
            (r.0@, r.1@) == self@[i as int],
    {
        &self.entries.write_set[i]
    }

    /// The changes, in their order.
    pub fn to_vec(&self) -> (v: Vec<(AccessPath, WriteOp)>)
        ensures
            entries_view(v@) == self@,
    {
        let mut v: Vec<(AccessPath, WriteOp)> = Vec::new();
        let mut i: usize = 0;
        while i < self.entries.write_set.len()
            invariant
                i <= self.entries.write_set.len(),
                v@.len() == i,
                forall|j: int|
                    0 <= j < i ==> (#[trigger] v@[j]).0@ == self.entries.write_set@[j].0@ && v@[j].1@
                        == self.entries.write_set@[j].1@,
            decreases self.entries.write_set.len() - i,
        {
            let item = &self.entries.write_set[i];
            let op = match &item.1 {
                WriteOp::Deletion => WriteOp::Deletion,
                WriteOp::Value(blob) => {
                    let copy = blob.clone();
                    assert(copy@ =~= blob@);
                    WriteOp::Value(copy)
                },
            };
            v.push((item.0.clone(), op));
            i += 1;
        }
        assert(entries_view(v@) =~= self@);
        v
    }
}

} // verus!
