//! An ordered collection with at most one highlighted index.
//!
//! The selection cursor can move forward and backward with wrap-around,
//! or be cleared; the collection grows at the back and is bounded by
//! evicting its oldest (front) entries.

use vstd::prelude::*;

verus! {

/// An ordered sequence of items together with an optional selected index.
///
/// Invariant ([`SelectableList::wf`]): the selected index, when present,
/// is a valid index into the sequence.
pub struct SelectableList<T> {
    items: Vec<T>,
    selected: Option<usize>,
}

impl<T> View for SelectableList<T> {
    type V = Seq<T>;

    closed spec fn view(&self) -> Seq<T> {
        self.items@
    }
}

impl<T> SelectableList<T> {
    /// The selection cursor, if any.
    pub closed spec fn selected_index(self) -> Option<usize> {
        self.selected
    }

    /// Well-formedness: a present selection always indexes into the items.
    pub open spec fn wf(self) -> bool {
        match self.selected_index() {
            Some(i) => (i as int) < self@.len(),
            None => true,
        }
    }

    /// Creates an empty list with no selection.
    pub fn new() -> (r: Self)
        ensures
            r@ =~= Seq::<T>::empty(),
            r.selected_index() is None,
            r.wf(),
    {
        SelectableList { items: Vec::new(), selected: None }
    }

    /// Creates a pre-populated list with no selection.
    pub fn with_items(items: Vec<T>) -> (r: Self)
        ensures
            r@ == items@,
            r.selected_index() is None,
            r.wf(),
    {
        SelectableList { items, selected: None }
    }

    /// The number of items held.
    pub fn len(&self) -> (n: usize)
        ensures
            n == self@.len(),
    {
        self.items.len()
    }

    /// Read-only access to the items, in insertion order.
    pub fn items(&self) -> (r: &Vec<T>)
        ensures
            r@ == self@,
    {
        &self.items
    }

    /// The item at a valid index.
    pub fn get(&self, i: usize) -> (r: &T)
        requires
            i < self@.len(),
        ensures
            *r == self@[i as int],
    {
        &self.items[i]
    }

    /// The current selection cursor, if any.
    pub fn selected(&self) -> (r: Option<usize>)
        ensures
            r == self.selected_index(),
    {
        self.selected
    }

    /// Adds an item at the end; the selection is unchanged.
    pub fn append(&mut self, item: T)
        requires
            old(self).wf(),
        ensures
            final(self)@ == old(self)@.push(item),
            final(self).selected_index() == old(self).selected_index(),
            final(self).wf(),
    {
        self.items.push(item);
    }

    /// Removes the oldest (front) items until at most `max_length` remain.
    ///
    /// A selection that still indexes into the shortened sequence is kept
    /// as an index; one that no longer does is cleared, so that
    /// well-formedness is preserved.
    pub fn evict_to(&mut self, max_length: usize)
        requires
            old(self).wf(),
        ensures
            final(self)@ == old(self)@.skip(
                if old(self)@.len() <= max_length { 0int } else { old(self)@.len() - max_length },
            ),
            final(self).selected_index() == (match old(self).selected_index() {
                Some(i) => if (i as int) < final(self)@.len() { Some(i) } else { None::<usize> },
                None => None::<usize>,
            }),
            final(self).wf(),
    {
        let ghost orig: Seq<T> = self.items@;
        while self.items.len() > max_length
            invariant
                self.items@ =~= orig.skip(orig.len() - self.items@.len()),
                self.items@.len() <= orig.len(),
                orig.len() > max_length ==> self.items@.len() >= max_length,
                orig.len() <= max_length ==> self.items@.len() == orig.len(),
                self.selected == old(self).selected,
            decreases self.items@.len(),
        {
            self.items.remove(0);
        }
        proof {
            assert(self.items@ =~= orig.skip(
                if orig.len() <= max_length { 0int } else { orig.len() - max_length },
            ));
        }
        match self.selected {
            Some(i) => {
                if i >= self.items.len() {
                    self.selected = None;
                }
            },
            None => {},
        }
    }

    /// Moves the selection forward: from none to the first index, and
    /// otherwise one step ahead, wrapping to the front past the last
    /// index. On an empty list this is a no-op.
    pub fn select_next(&mut self)
        requires
            old(self).wf(),
        ensures
            final(self)@ == old(self)@,
            final(self).wf(),
            final(self).selected_index() == (if old(self)@.len() == 0 {
                old(self).selected_index()
            } else {
                match old(self).selected_index() {
                    None => Some(0usize),
                    Some(i) => if i + 1 == old(self)@.len() { Some(0usize) } else { Some((i + 1) as usize) },
                }
            }),
    {
        if self.items.len() == 0 {
            return;
        }
        let i: usize = match self.selected {
            Some(i) => {
                if i >= self.items.len() - 1 {
                    0
                } else {
                    i + 1
                }
            },
            None => 0,
        };
        self.selected = Some(i);
    }

    /// Moves the selection backward: from none to the first index, and
    /// otherwise one step back, wrapping to the last index past the
    /// front. On an empty list this is a no-op.
    pub fn select_previous(&mut self)
        requires
            old(self).wf(),
        ensures
            final(self)@ == old(self)@,
            final(self).wf(),
            final(self).selected_index() == (if old(self)@.len() == 0 {
                old(self).selected_index()
            } else {
                match old(self).selected_index() {
                    None => Some(0usize),
                    Some(i) => if i == 0 { Some((old(self)@.len() - 1) as usize) } else { Some((i - 1) as usize) },
                }
            }),
    {
        if self.items.len() == 0 {
            return;
        }
        let i: usize = match self.selected {
            Some(i) => {
                if i == 0 {
                    self.items.len() - 1
                } else {
                    i - 1
                }
            },
            None => 0,
        };
        self.selected = Some(i);
    }

    /// Clears the selection; the items are unchanged.
    pub fn clear_selection(&mut self)
        ensures
            final(self)@ == old(self)@,
            final(self).selected_index() is None,
            final(self).wf(),
    {
        self.selected = None;
    }
}

} // verus!
