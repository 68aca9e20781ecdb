use vstd::prelude::*;

verus! {

/// Every way an operation of the ledger can fail.
#[derive(Clone, Copy, Debug, PartialEq, Eq, Structural)]
pub enum Error {
    ProductAlreadyExists,
    ProductNotFound,
    Unauthorized,
    /// The product is inactive, so no event may be appended to it.
    InvalidInput,
    EventNotFound,
    InvalidProductId,
    InvalidProductName,
    InvalidOrigin,
    InvalidCategory,
    ProductIdTooLong,
    ProductNameTooLong,
    OriginTooLong,
    CategoryTooLong,
    DescriptionTooLong,
    TooManyTags,
    TagTooLong,
    TooManyCertifications,
    TooManyMediaHashes,
    TooManyCustomFields,
    CustomFieldValueTooLong,
    BatchEmpty,
    BatchTooLarge,
    DuplicateInBatch,
}

} // verus!
