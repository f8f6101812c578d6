use vstd::prelude::*;

verus! {

/// A place for a value that may not be loaded yet. A loaded value is either
/// still in its first, shared state (`InteriorMutable`) or owned outright
/// (`Safe`); moving it to the second state is an upgrade.
pub enum LazySlot<T> {
    InteriorMutable(Option<Box<T>>),
    Safe(Box<T>),
}

impl<T> LazySlot<T> {
    /// The value held, if any.
    pub open spec fn value(&self) -> Option<T> {
        match self {
            LazySlot::InteriorMutable(Some(b)) => Some(**b),
            LazySlot::InteriorMutable(None) => None,
            LazySlot::Safe(b) => Some(**b),
        }
    }

    /// Whether the value is owned outright.
    pub open spec fn spec_is_safe(&self) -> bool {
        self is Safe
    }

    /// A slot with nothing loaded.
    pub fn empty() -> (r: Self)
        ensures
            r.value() is None,
            !r.spec_is_safe(),
    {
        LazySlot::InteriorMutable(None)
    }

    /// A slot that owns `value`.
    pub fn new(value: T) -> (r: Self)
        ensures
            r.value() == Some(value),
            r.spec_is_safe(),
    {
        LazySlot::Safe(Box::new(value))
    }

    pub fn is_filled(&self) -> (r: bool)
        ensures
            r == self.value() is Some,
    {
        match self {
            LazySlot::InteriorMutable(cell) => cell.is_some(),
            LazySlot::Safe(_) => true,
        }
    }

    pub fn is_empty(&self) -> (r: bool)
        ensures
            r == self.value() is None,
    {
        !self.is_filled()
    }

    pub fn is_safe(&self) -> (r: bool)
        ensures
            r == self.spec_is_safe(),
    {
        match self {
            LazySlot::InteriorMutable(_) => false,
            LazySlot::Safe(_) => true,
        }
    }

    /// Makes a loaded value owned. Answers `Some(())` only when it already
    /// was; the value held never changes.
    pub fn upgrade(&mut self) -> (r: Option<()>)
        ensures
            final(self).value() == old(self).value(),
            final(self).spec_is_safe() == old(self).value() is Some,
            r is Some == old(self).spec_is_safe(),
    {
        let taken = match self {
            LazySlot::InteriorMutable(cell) => cell.take(),
            LazySlot::Safe(_) => {
                return Some(());
            },
        };
        match taken {
            Some(t) => {
                *self = LazySlot::Safe(t);
                None
            },
            None => None,
        }
    }

    /// The same as `upgrade`.
    pub fn upgrade_unsafe(&mut self) -> (r: Option<()>)
        ensures
            final(self).value() == old(self).value(),
            final(self).spec_is_safe() == old(self).value() is Some,
            r is Some == old(self).spec_is_safe(),
    {
        self.upgrade()
    }

    /// The same as `upgrade`.
    pub fn upgrade_safe(&mut self) -> (r: Option<()>)
        ensures
            final(self).value() == old(self).value(),
            final(self).spec_is_safe() == old(self).value() is Some,
            r is Some == old(self).spec_is_safe(),
    {
        self.upgrade()
    }

    /// Loads `value` into an empty slot and answers `Some(())`. A slot that
    /// holds a value keeps it (now owned), and `value` is dropped.
    pub fn fill(&mut self, value: T) -> (r: Option<()>)
        ensures
            r is Some == old(self).value() is None,
            final(self).value() == after_fill(old(self).value(), value),
            final(self).spec_is_safe(),
    {
        let taken = match self {
            LazySlot::InteriorMutable(cell) => cell.take(),
            LazySlot::Safe(_) => {
                return None;
            },
        };
        match taken {
            Some(t) => {
                *self = LazySlot::Safe(t);
                None
            },
            None => {
                *self = LazySlot::Safe(Box::new(value));
                Some(())
            },
        }
    }

    /// A reference to the value held, if any.
    pub fn as_ref(&self) -> (r: Option<&T>)
        ensures
            match r {
                Some(v) => self.value() == Some(*v),
                None => self.value() is None,
            },
    {
        match self {
            LazySlot::InteriorMutable(Some(b)) => Some(&**b),
            LazySlot::InteriorMutable(None) => None,
            LazySlot::Safe(b) => Some(&**b),
        }
    }

    /// Upgrades the slot and hands out the value held for changing; `None`
    /// when nothing is loaded.
    pub fn safe_ref_mut(&mut self) -> (r: Option<&mut T>)
        ensures
            match r {
                Some(v) => {
                    &&& old(self).value() == Some(*v)
                    &&& final(self).spec_is_safe()
                    &&& final(self).value() == Some(*final(v))
                },
                None => {
                    &&& old(self).value() is None
                    &&& final(self).value() is None
                },
            },
    {
        if !self.is_safe() {
            self.upgrade_safe();
        }
        match self {
            LazySlot::InteriorMutable(_) => None,
            LazySlot::Safe(b) => Some(&mut **b),
        }
    }

    /// The same as `safe_ref_mut`.
    pub fn as_mut(&mut self) -> (r: Option<&mut T>)
        ensures
            match r {
                Some(v) => {
                    &&& old(self).value() == Some(*v)
                    &&& final(self).spec_is_safe()
                    &&& final(self).value() == Some(*final(v))
                },
                None => {
                    &&& old(self).value() is None
                    &&& final(self).value() is None
                },
            },
    {
        self.safe_ref_mut()
    }

    /// Drops the value held, if any.
    pub fn free(&mut self)
        ensures
            final(self).value() is None,
            !final(self).spec_is_safe(),
    {
        *self = LazySlot::InteriorMutable(None);
    }
}

/// What a slot holds after `value` is filled into a slot that held `held`.
pub open spec fn after_fill<T>(held: Option<T>, value: T) -> Option<T> {
    if held is None {
        Some(value)
    } else {
        held
    }
}

/// The first value filled into an empty slot stays: a later fill does not
/// replace it.
pub proof fn lemma_fill_keeps_first<T>(first: T, second: T)
    ensures
        after_fill(None, first) == Some(first),
        after_fill(after_fill(None, first), second) == Some(first),
{
}

} // verus!
