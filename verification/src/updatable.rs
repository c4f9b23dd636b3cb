//! A value that one side sets and another side collects once, with a flag
//! that says whether it changed since it was last collected.
use vstd::prelude::*;

verus! {

/// A slot for a value, and whether it was set since it was last taken.
pub struct Updatable<T> {
    updated: bool,
    value: Option<T>,
}

impl<T> View for Updatable<T> {
    /// Whether the value changed since it was last taken, and the stored value.
    type V = (bool, Option<T>);

    closed spec fn view(&self) -> (bool, Option<T>) {
        (self.updated, self.value)
    }
}

/// What taking the value gives, and the slot after: the value and an
/// unchanged empty slot when the slot changed, else nothing.
pub open spec fn taken<T>(s: (bool, Option<T>)) -> (Option<T>, (bool, Option<T>)) {
    if s.0 {
        (s.1, (false, None))
    } else {
        (None, s)
    }
}

/// A value that is set is taken exactly once: the next take gives it, the
/// one after that gives nothing.
pub proof fn lemma_set_value_taken_once<T>(v: T)
    ensures
        taken((true, Some(v))).0 == Some(v),
        taken(taken((true, Some(v))).1).0 is None,
{
}

impl<T> Updatable<T> {
    /// An empty slot.
    pub fn new() -> (r: Self)
        ensures
            r@ == (false, None::<T>),
    {
        Updatable { updated: false, value: None }
    }

    /// Stores a value and marks the slot as changed.
    pub fn update(&mut self, val: T)
        ensures
            final(self)@ == (true, Some(val)),
    {
        self.updated = true;
        self.value = Some(val);
    }

    /// Takes the stored value if the slot changed since the last take; the
    /// slot is then unchanged and empty. Otherwise nothing happens.
    pub fn take_val(&mut self) -> (r: Option<T>)
        ensures
            (r, final(self)@) == taken(old(self)@),
    {
        if self.updated {
            self.updated = false;
            let v = self.value.take();
            v
        } else {
            None
        }
    }
}

impl<T: Default> Updatable<T> {
    /// Marks the slot as changed and replaces the stored value (or, if the
    /// slot is empty, `T`'s default value) by what `func` makes of it; returns
    /// `func`'s second result.
    pub fn modify<R, F: FnOnce(T) -> (T, R)>(&mut self, func: F) -> (r: R)
        requires
            forall|v: T| #[trigger] func.requires((v,)),
        ensures
            final(self)@.0,
            final(self)@.1 matches Some(nv) && (match old(self)@.1 {
                Some(v) => func.ensures((v,), (nv, r)),
                None => exists|d: T| call_ensures(T::default, (), d) && #[trigger] func.ensures((d,), (nv, r)),
            }),
    {
        self.updated = true;
        let v = match self.value.take() {
            Some(v) => v,
            None => T::default(),
        };
        let (nv, r) = func(v);
        self.value = Some(nv);
        r
    }
}

} // verus!
