use vstd::prelude::*;

verus! {

/// An optional value with a layout that does not depend on the compiler:
/// the variant that holds a value comes first, the empty one second.
#[derive(Debug, Clone, Copy, PartialEq, Eq, PartialOrd, Ord, Hash)]
pub enum Optional<T> {
    Present(T),
    Absent,
}

impl<T> Optional<T> {
    /// The same value as an `Option`.
    pub open spec fn to_option(self) -> Option<T> {
        match self {
            Optional::Present(x) => Some(x),
            Optional::Absent => None,
        }
    }

    /// The `Optional` that holds what `v` holds.
    pub open spec fn of_option(v: Option<T>) -> Optional<T> {
        match v {
            Some(x) => Optional::Present(x),
            None => Optional::Absent,
        }
    }

    pub fn into_option(self) -> (r: Option<T>)
        ensures
            r == self.to_option(),
    {
        match self {
            Optional::Present(x) => Some(x),
            Optional::Absent => None,
        }
    }

    pub fn as_ref(&self) -> (r: Option<&T>)
        ensures
            r.is_some() == (*self is Present),
            r.is_some() ==> *r.unwrap() == self->Present_0,
    {
        match self {
            Optional::Present(x) => Some(x),
            Optional::Absent => None,
        }
    }

    pub fn as_mut(&mut self) -> (r: Option<&mut T>)
        ensures
            r.is_some() == (*old(self) is Present),
            r.is_some() ==> *r.unwrap() == old(self)->Present_0
                && *final(self) == Optional::Present(*final(r.unwrap())),
            r.is_none() ==> *final(self) == *old(self),
    {
        match self {
            Optional::Present(x) => Some(x),
            Optional::Absent => None,
        }
    }

    /// Converting to `Option` and back gives the value again.
    pub proof fn lemma_round_trip(self)
        ensures
            Self::of_option(self.to_option()) == self,
    {
    }

    /// Converting from `Option` and back gives the value again.
    pub proof fn lemma_round_trip_option(v: Option<T>)
        ensures
            Self::of_option(v).to_option() == v,
    {
    }
}

impl<T> From<Option<T>> for Optional<T> {
    fn from(v: Option<T>) -> (r: Self)
        ensures
            r == Optional::<T>::of_option(v),
    {
        match v {
            Some(x) => Optional::Present(x),
            None => Optional::Absent,
        }
    }
}

impl<T> vstd::std_specs::convert::FromSpecImpl<Option<T>> for Optional<T> {
    open spec fn obeys_from_spec() -> bool {
        true
    }

    open spec fn from_spec(v: Option<T>) -> Self {
        Optional::<T>::of_option(v)
    }
}

} // verus!
