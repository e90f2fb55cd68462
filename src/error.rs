use vstd::prelude::*;
use crate::field::FieldError;

verus! {

/// Why a declaration cannot be compiled. Positions count the declared
/// fields, variants or impl items from zero.
#[derive(Clone, Copy, Debug, PartialEq, Eq, Structural)]
pub enum Error {
    /// A record codec was asked for a sum type.
    MessageOnEnum,
    /// A record codec was asked for a union.
    MessageOnUnion,
    /// A sum-type codec was asked for a record.
    OneofOnStruct,
    /// A sum-type codec was asked for a union.
    OneofOnUnion,
    /// The declaration has type parameters or a where clause.
    Generic,
    /// A record field's attributes do not describe a field.
    InvalidField { index: usize, reason: FieldError },
    /// Two record fields share a tag.
    DuplicateTags,
    /// A variant does not hold exactly one field.
    VariantFieldCount { index: usize },
    /// A variant is marked ignored.
    IgnoredVariant { index: usize },
    /// A variant's attributes do not describe a field.
    InvalidVariant { index: usize, reason: FieldError },
    /// A variant has more than one tag.
    VariantMultipleTags { index: usize },
    /// Two variants share a tag. Unlike every other error this one aborts
    /// the build instead of being reported: see `is_fatal`.
    DuplicateVariantTags,
    /// An enumeration was asked for a trait impl.
    EnumerationTraitImpl,
    /// An enumeration's impl holds an item that is not a constant.
    EnumerationNonConst { index: usize },
    /// An enumeration's impl holds no constant.
    EnumerationEmpty,
}

impl Error {
    /// Whether this failure aborts the whole build rather than being
    /// reported as a diagnostic.
    pub fn is_fatal(&self) -> (r: bool)
        ensures
            r == (*self is DuplicateVariantTags),
    {
        match self {
            Error::DuplicateVariantTags => true,
            _ => false,
        }
    }
}

} // verus!
