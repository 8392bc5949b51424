use vstd::prelude::*;

verus! {

/// A partition value that is either given or wildcarded, as in `ts=1337` and `ts=*`.
#[derive(Debug, Clone, Copy, PartialEq, Eq, Hash)]
pub enum Wildcardable<T> {
    /// Wildcarded with a star, as in `ts=*`.
    Star,
    /// Given explicitly, as in `ts=1337`.
    Value(T),
}

impl<T> Wildcardable<T> {
    /// The given value, if any.
    pub fn inner(&self) -> (r: Option<&T>)
        ensures
            match self {
                Wildcardable::Star => r is None,
                Wildcardable::Value(x) => r == Some(x),
            },
    {
        match self {
            Wildcardable::Star => None,
            Wildcardable::Value(x) => Some(x),
        }
    }

    /// The given value, if any, taken out.
    pub fn into_inner(self) -> (r: Option<T>)
        ensures
            match self {
                Wildcardable::Star => r is None,
                Wildcardable::Value(x) => r == Some(x),
            },
    {
        match self {
            Wildcardable::Star => None,
            Wildcardable::Value(x) => Some(x),
        }
    }
}

impl<T> Default for Wildcardable<T> {
    fn default() -> (r: Self)
        ensures
            r is Star,
    {
        Wildcardable::Star
    }
}

impl<T> From<T> for Wildcardable<T> {
    fn from(value: T) -> (r: Self) {
        Wildcardable::Value(value)
    }
}

impl<T> vstd::std_specs::convert::FromSpecImpl<T> for Wildcardable<T> {
    open spec fn obeys_from_spec() -> bool {
        true
    }

    open spec fn from_spec(v: T) -> Self {
        Wildcardable::Value(v)
    }
}

impl<T> From<Wildcardable<T>> for Option<T> {
    fn from(value: Wildcardable<T>) -> (r: Self) {
        value.into_inner()
    }
}

impl<T> vstd::std_specs::convert::FromSpecImpl<Wildcardable<T>> for Option<T> {
    open spec fn obeys_from_spec() -> bool {
        true
    }

    open spec fn from_spec(v: Wildcardable<T>) -> Self {
        match v {
            Wildcardable::Star => None,
            Wildcardable::Value(x) => Some(x),
        }
    }
}

} // verus!
