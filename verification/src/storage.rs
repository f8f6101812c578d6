//! A value kept in a file of its own, loaded when first needed and written
//! back when it was changed. A value that was not changed over
//! `JUMBLE_COLLECTOR_MAX_GEN` flushes is dropped from memory, to be loaded
//! again when it is next needed.
use vstd::prelude::*;

use crate::lazy_slot::LazySlot;

verus! {

/// After this many flushes with nothing changed, the loaded value is dropped.
pub const JUMBLE_COLLECTOR_MAX_GEN: usize = 8;

/// What a flush comes to.
#[derive(Debug, Clone, Copy, PartialEq, Eq, Structural)]
pub enum FlushStep {
    /// Nothing was changed; nothing is written.
    Clean,
    /// The value was changed, but is not loaded: nothing can be written.
    NothingLoaded,
    /// The value was changed: its serialization is to replace the file's
    /// contents, after which the storage is marked clean.
    Write,
}

/// The state of a value kept in a file: the value, where it is loaded;
/// whether it differs from what the file holds; and how many flushes found it
/// unchanged.
pub struct Storage<T> {
    inner: LazySlot<T>,
    dirty: bool,
    jumble_collector_generation: usize,
}

impl<T> Storage<T> {
    /// The value, where it is loaded.
    pub closed spec fn value(&self) -> Option<T> {
        self.inner.value()
    }

    /// Whether the value may differ from what the file holds.
    pub closed spec fn spec_dirty(&self) -> bool {
        self.dirty
    }

    /// How many flushes in a row found the value unchanged.
    pub closed spec fn generation(&self) -> nat {
        self.jumble_collector_generation as nat
    }

    /// A storage for a new value, which the file does not hold yet: the
    /// value is loaded and counts as clean until it is changed.
    pub fn new(value: T) -> (r: Self)
        ensures
            r.value() == Some(value),
            !r.spec_dirty(),
            r.generation() == 0,
    {
        Storage { inner: LazySlot::new(value), dirty: false, jumble_collector_generation: 0 }
    }

    /// A storage for a value the file holds: nothing is loaded yet.
    pub fn open() -> (r: Self)
        ensures
            r.value() is None,
            r.spec_dirty(),
            r.generation() == 0,
    {
        Storage { inner: LazySlot::empty(), dirty: true, jumble_collector_generation: 0 }
    }

    /// How many flushes in a row found the value unchanged.
    pub fn jumble_collector_generation(&self) -> (r: usize)
        ensures
            r == self.generation(),
    {
        self.jumble_collector_generation
    }

    pub fn is_dirty(&self) -> (r: bool)
        ensures
            r == self.spec_dirty(),
    {
        self.dirty
    }

    /// Counts a flush that found nothing changed; the value is dropped once
    /// the count reaches `JUMBLE_COLLECTOR_MAX_GEN`.
    fn increase_and_check_jumble_collector(&mut self)
        requires
            old(self).generation() < usize::MAX,
        ensures
            final(self).generation() == old(self).generation() + 1,
            final(self).spec_dirty() == old(self).spec_dirty(),
            final(self).value() == if final(self).generation()
                >= JUMBLE_COLLECTOR_MAX_GEN {
                None
            } else {
                old(self).value()
            },
    {
        self.jumble_collector_generation = self.jumble_collector_generation + 1;
        if self.jumble_collector_generation >= JUMBLE_COLLECTOR_MAX_GEN {
            self.inner.free();
        }
    }

    /// What flushing the value alone comes to: a clean value is counted
    /// toward being dropped, and nothing is written; a changed value is to
    /// be written where it is loaded.
    pub fn flush_without_children(&mut self) -> (r: FlushStep)
        requires
            old(self).generation() < usize::MAX,
        ensures
            !old(self).spec_dirty() ==> {
                &&& r == FlushStep::Clean
                &&& final(self).generation() == old(
                    self,
                ).generation() + 1
                &&& final(self).spec_dirty() == old(self).spec_dirty()
                &&& final(self).value() == if final(self).generation()
                    >= JUMBLE_COLLECTOR_MAX_GEN {
                    None
                } else {
                    old(self).value()
                }
            },
            old(self).spec_dirty() ==> {
                &&& r == if old(self).value() is Some {
                    FlushStep::Write
                } else {
                    FlushStep::NothingLoaded
                }
                &&& *final(self) == *old(self)
            },
    {
        if self.dirty {
            self.flush_without_children_no_dirty_check()
        } else {
            self.increase_and_check_jumble_collector();
            FlushStep::Clean
        }
    }

    /// What flushing comes to whether or not the value was changed: a write
    /// where it is loaded.
    fn flush_without_children_no_dirty_check(&self) -> (r: FlushStep)
        ensures
            r == if self.value() is Some {
                FlushStep::Write
            } else {
                FlushStep::NothingLoaded
            },
    {
        if self.inner.is_filled() {
            FlushStep::Write
        } else {
            FlushStep::NothingLoaded
        }
    }

    /// What flushing the value and the values it reaches comes to: as for
    /// the value alone; where it is written, the values it reaches are to be
    /// flushed after it.
    pub fn flush(&mut self) -> (r: FlushStep)
        requires
            old(self).generation() < usize::MAX,
        ensures
            !old(self).spec_dirty() ==> {
                &&& r == FlushStep::Clean
                &&& final(self).generation() == old(
                    self,
                ).generation() + 1
                &&& final(self).spec_dirty() == old(self).spec_dirty()
                &&& final(self).value() == if final(self).generation()
                    >= JUMBLE_COLLECTOR_MAX_GEN {
                    None
                } else {
                    old(self).value()
                }
            },
            old(self).spec_dirty() ==> {
                &&& r == if old(self).value() is Some {
                    FlushStep::Write
                } else {
                    FlushStep::NothingLoaded
                }
                &&& *final(self) == *old(self)
            },
    {
        self.flush_without_children()
    }

    /// Records that the file now holds the value.
    pub fn mark_as_clean(&mut self)
        ensures
            !final(self).spec_dirty(),
            final(self).value() == old(self).value(),
            final(self).generation() == old(self).generation(),
    {
        self.dirty = false;
    }

    /// The value, where it is loaded.
    pub fn deref(&self) -> (r: Option<&T>)
        ensures
            match r {
                Some(v) => self.value() == Some(*v),
                None => self.value() is None,
            },
    {
        self.inner.as_ref()
    }

    /// Loads `value`, read from the file, where nothing is loaded; a loaded
    /// value stays.
    pub fn ensure_filled(&mut self, value: T)
        ensures
            final(self).value() == if old(self).value() is None {
                Some(value)
            } else {
                old(self).value()
            },
            final(self).spec_dirty() == old(self).spec_dirty(),
            final(self).generation() == old(self).generation(),
    {
        if self.inner.is_empty() {
            self.inner.fill(value);
        }
    }

    /// The loaded value, for changing; the storage counts as changed.
    pub fn ref_mut(&mut self) -> (r: &mut T)
        requires
            old(self).value() is Some,
        ensures
            old(self).value() == Some(*r),
            final(self).value() == Some(*final(r)),
            final(self).spec_dirty(),
            final(self).generation() == old(self).generation(),
    {
        self.dirty = true;
        self.inner.as_mut().unwrap()
    }
}

} // verus!
