use crate::error::Error;
use vstd::prelude::*;

verus! {

/// Converts `self` into a `T`, or fails.
pub trait TryTranslateInto<T> {
    fn try_translate_into(&self) -> Result<T, Error>;
}

/// Builds a value from a `T`, or fails.
pub trait TryTranslateFrom<T> {
    type Target;

    fn try_translate_from(src: &T) -> Result<Self::Target, Error>;
}

impl<S: TryTranslateInto<T>, T> TryTranslateFrom<S> for T {
    type Target = T;

    fn try_translate_from(src: &S) -> Result<T, Error> {
        src.try_translate_into()
    }
}

} // verus!
