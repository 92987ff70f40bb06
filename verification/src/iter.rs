//! A restartable, finite, forward-only cursor over ordinal-indexed
//! containers: tables of a database, columns and records of a table,
//! values of a record, segments of a long value.
//!
//! The cursor is parameterized by an ordinal-access primitive — a count
//! taken at creation and a loader from handle and ordinal — rather than
//! being a native iterator, and each element is independently fallible.
//! Each loader carries a relation pinning what it yields, so the cursor's
//! `next` promises that every yielded element satisfies the same contract
//! as the direct ordinal accessor.

use crate::error::Error;
use vstd::prelude::*;

verus! {

/// Loads one entry of a container by ordinal: a [`crate::Table`] of an
/// [`crate::EseDb`], a [`crate::Column`] or [`crate::Record`] of a
/// [`crate::Table`], a [`crate::Value`] of a [`crate::Record`] or
/// [`crate::MultiValue`], or a segment of a [`crate::LongValue`].
pub trait LoadEntry<'h, H>: Sized {
    /// What loading ordinal `entry` of `handle` returns: each implementor
    /// defines this as the contract of its direct ordinal accessor.
    spec fn load_rel(handle: &'h H, entry: int, r: Result<Self, Error>) -> bool;

    fn load(handle: &'h H, entry: usize) -> (r: Result<Self, Error>)
        ensures
            Self::load_rel(handle, entry as int, r),
    ;
}

/// A forward cursor over the entries of a container.
pub struct IterEntries<'h, H, T> {
    handle: &'h H,
    pos: usize,
    max: usize,
    entry: core::marker::PhantomData<T>,
}

impl<'h, H, T: LoadEntry<'h, H>> IterEntries<'h, H, T> {
    /// The handle the cursor reads from.
    pub closed spec fn handle_ref(&self) -> &'h H {
        self.handle
    }

    /// The next ordinal the cursor will load.
    pub closed spec fn pos_view(&self) -> int {
        self.pos as int
    }

    /// The count the cursor was created with.
    pub closed spec fn max_view(&self) -> int {
        self.max as int
    }

    /// A cursor over `max` entries of `handle`, starting at the first.
    pub fn new(handle: &'h H, max: usize) -> (r: Self)
        ensures
            r.handle_ref() == handle,
            r.pos_view() == 0,
            r.max_view() == max,
    {
        IterEntries { handle, pos: 0, max, entry: core::marker::PhantomData }
    }

    /// Loads the entry at the cursor and advances: below the count it
    /// yields an element satisfying the loader's relation at the cursor's
    /// ordinal; past the count it yields `None`.
    pub fn next(&mut self) -> (r: Option<Result<T, Error>>)
        ensures
            final(self).handle_ref() == old(self).handle_ref(),
            final(self).max_view() == old(self).max_view(),
            old(self).pos_view() < old(self).max_view() ==> final(self).pos_view() == old(
                self,
            ).pos_view() + 1 && (r matches Some(x) && T::load_rel(
                old(self).handle_ref(),
                old(self).pos_view(),
                x,
            )),
            old(self).pos_view() >= old(self).max_view() ==> r is None && final(self).pos_view()
                == old(self).pos_view(),
    {
        if self.pos < self.max {
            let val = T::load(self.handle, self.pos);
            self.pos = self.pos + 1;
            Some(val)
        } else {
            None
        }
    }
}

} // verus!
