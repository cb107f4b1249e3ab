//! An ordered collection with a single focus cursor.
//!
//! A `Ring` owns its elements and records which one is focused. The cursor
//! is not auto-corrected: callers re-focus explicitly after structural
//! changes, and out-of-range access yields `None`, never a panic.

use vstd::prelude::*;

verus! {

pub struct Ring<T> {
    pub elements: Vec<T>,
    pub focused: usize,
}

impl<T> Ring<T> {
    /// An empty ring with the cursor at zero.
    pub fn new() -> (r: Self)
        ensures
            r.elements@ == Seq::<T>::empty(),
            r.focused == 0,
    {
        Ring { elements: Vec::new(), focused: 0 }
    }

    /// Sets the focus cursor. Callers are expected to pass an index below
    /// the length; the cursor is stored unchecked and out-of-range values
    /// simply make the focused accessors return `None`.
    pub fn focus(&mut self, idx: usize)
        ensures
            final(self).elements@ == old(self).elements@,
            final(self).focused == idx,
    {
        self.focused = idx;
    }

    /// The current focus cursor.
    pub fn focused_idx(&self) -> (r: usize)
        ensures
            r == self.focused,
    {
        self.focused
    }

    /// The focused element, or `None` when the cursor is out of range.
    pub fn focused_element(&self) -> (r: Option<&T>)
        ensures
            match r {
                Some(t) => self.focused < self.elements@.len() && *t == self.elements@[self.focused as int],
                None => self.focused >= self.elements@.len(),
            },
    {
        if self.focused < self.elements.len() {
            Some(&self.elements[self.focused])
        } else {
            None
        }
    }

    /// A mutable borrow of the focused element, or `None` when the cursor
    /// is out of range.
    pub fn focused_element_mut(&mut self) -> (r: Option<&mut T>)
        ensures
            match r {
                Some(t) => {
                    &&& old(self).focused < old(self).elements@.len()
                    &&& *t == old(self).elements@[old(self).focused as int]
                    &&& final(self).elements@ == old(self).elements@.update(
                        old(self).focused as int,
                        *final(t),
                    )
                    &&& final(self).focused == old(self).focused
                },
                None => {
                    &&& old(self).focused >= old(self).elements@.len()
                    &&& *final(self) == *old(self)
                },
            },
    {
        if self.focused < self.elements.len() {
            Some(&mut self.elements[self.focused])
        } else {
            None
        }
    }

    /// The number of elements.
    pub fn len(&self) -> (r: usize)
        ensures
            r == self.elements@.len(),
    {
        self.elements.len()
    }

    /// Whether the ring holds no elements.
    pub fn is_empty(&self) -> (r: bool)
        ensures
            r == (self.elements@.len() == 0),
    {
        self.elements.is_empty()
    }

    /// The element at `idx`, or `None` when out of range.
    pub fn get(&self, idx: usize) -> (r: Option<&T>)
        ensures
            match r {
                Some(t) => idx < self.elements@.len() && *t == self.elements@[idx as int],
                None => idx >= self.elements@.len(),
            },
    {
        if idx < self.elements.len() {
            Some(&self.elements[idx])
        } else {
            None
        }
    }

    /// A mutable borrow of the element at `idx`, or `None` when out of range.
    pub fn get_mut(&mut self, idx: usize) -> (r: Option<&mut T>)
        ensures
            match r {
                Some(t) => {
                    &&& idx < old(self).elements@.len()
                    &&& *t == old(self).elements@[idx as int]
                    &&& final(self).elements@ == old(self).elements@.update(
                        idx as int,
                        *final(t),
                    )
                    &&& final(self).focused == old(self).focused
                },
                None => {
                    &&& idx >= old(self).elements@.len()
                    &&& *final(self) == *old(self)
                },
            },
    {
        if idx < self.elements.len() {
            Some(&mut self.elements[idx])
        } else {
            None
        }
    }

    /// Appends an element at the back, leaving the cursor untouched.
    pub fn push_back(&mut self, element: T)
        ensures
            final(self).elements@ == old(self).elements@.push(element),
            final(self).focused == old(self).focused,
    {
        self.elements.push(element);
    }

    /// Inserts an element at `idx`, shifting later elements right.
    pub fn insert(&mut self, idx: usize, element: T)
        requires
            idx <= old(self).elements@.len(),
        ensures
            final(self).elements@ == old(self).elements@.insert(idx as int, element),
            final(self).focused == old(self).focused,
    {
        self.elements.insert(idx, element);
    }

    /// Removes and returns the element at `idx`, or `None` when out of
    /// range. The cursor is left untouched.
    pub fn remove(&mut self, idx: usize) -> (r: Option<T>)
        ensures
            final(self).focused == old(self).focused,
            match r {
                Some(t) => {
                    &&& idx < old(self).elements@.len()
                    &&& t == old(self).elements@[idx as int]
                    &&& final(self).elements@ == old(self).elements@.remove(idx as int)
                },
                None => {
                    &&& idx >= old(self).elements@.len()
                    &&& final(self).elements@ == old(self).elements@
                },
            },
    {
        if idx < self.elements.len() {
            Some(self.elements.remove(idx))
        } else {
            None
        }
    }

    /// Swaps the elements at `i` and `j`, then focuses `j`.
    pub fn swap(&mut self, i: usize, j: usize)
        requires
            i < old(self).elements@.len(),
            j < old(self).elements@.len(),
        ensures
            final(self).elements@ == old(self).elements@.update(
                i as int,
                old(self).elements@[j as int],
            ).update(j as int, old(self).elements@[i as int]),
            final(self).focused == j,
    {
        if i != j {
            let (lo, hi) = if i < j {
                (i, j)
            } else {
                (j, i)
            };
            let high_elem = self.elements.remove(hi);
            let low_elem = self.elements.remove(lo);
            self.elements.insert(lo, high_elem);
            self.elements.insert(hi, low_elem);
            proof {
                assert(self.elements@ =~= old(self).elements@.update(
                    i as int,
                    old(self).elements@[j as int],
                ).update(j as int, old(self).elements@[i as int]));
            }
        } else {
            proof {
                assert(self.elements@ =~= old(self).elements@.update(
                    i as int,
                    old(self).elements@[j as int],
                ).update(j as int, old(self).elements@[i as int]));
            }
        }
        self.focus(j);
    }
}

} // verus!
