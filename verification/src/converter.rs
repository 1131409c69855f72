//! The capabilities of a generated converter.
//!
//! A converter between two enumerations implements [`PartialEnumConverter`]
//! once for each direction. Where no value of that direction is left without
//! an image, it implements [`EnumConverter`] for that direction too.

use vstd::prelude::*;

verus! {

/// A conversion from `FromType` to `ToType` that may be undefined on some
/// values.
pub trait PartialEnumConverter<FromType, ToType> {
    /// Converts a value, if it has an image.
    fn convert_opt(from_value: &FromType) -> Option<ToType>;

    /// The values that have an image, in the order in which they were
    /// declared.
    fn convertible_values() -> &'static [FromType];
}

/// A conversion from `FromType` to `ToType` for use on the values that have
/// an image.
pub trait EnumConverter<FromType, ToType>: PartialEnumConverter<FromType, ToType> {
    /// Converts a value that has an image: the caller shows that
    /// `convert_opt` gives one for it, and gets that one.
    fn convert(from_value: &FromType) -> (to_value: ToType)
        requires
            forall|image: Option<ToType>| #[trigger]
                call_ensures(Self::convert_opt, (from_value,), image) ==> image is Some,
        ensures
            call_ensures(Self::convert_opt, (from_value,), Some(to_value)),
    {
        Self::convert_opt(from_value).unwrap()
    }
}

} // verus!
