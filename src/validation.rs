//! Field-constraint checks used before any write.
use vstd::prelude::*;
use vstd::utf8::encode_utf8;
use crate::error::Error;
use crate::fields::{values_within, FieldMap, FieldsView};
use crate::types::{Hash32, ProductInput};

verus! {

/// Length of a string in bytes, that is of its UTF-8 encoding.
pub open spec fn byte_len(s: Seq<char>) -> usize {
    encode_utf8(s).len() as usize
}

/// Length of `s` in bytes.
pub fn str_len(s: &String) -> (r: usize)
    ensures
        r == byte_len(s@),
{
    s.as_str().len()
}

/// True when `s` holds at least one byte.
pub fn non_empty(s: &String) -> (r: bool)
    ensures
        r == (byte_len(s@) > 0),
{
    str_len(s) > 0
}

/// True when `s` holds at most `max` bytes.
pub fn max_len(s: &String, max: u32) -> (r: bool)
    ensures
        r == (byte_len(s@) <= max),
{
    str_len(s) <= max as usize
}


pub const MAX_ID_LEN: u32 = 64;
pub const MAX_NAME_LEN: u32 = 128;
pub const MAX_ORIGIN_LEN: u32 = 256;
pub const MAX_CATEGORY_LEN: u32 = 64;
pub const MAX_DESCRIPTION_LEN: u32 = 2048;
pub const MAX_TAG_LEN: u32 = 64;
pub const MAX_CUSTOM_VALUE_LEN: u32 = 512;
pub const MAX_TAGS: usize = 20;
pub const MAX_CERTIFICATIONS: usize = 50;
pub const MAX_MEDIA_HASHES: usize = 50;
pub const MAX_CUSTOM_FIELDS: usize = 20;
pub const MAX_METADATA_FIELDS: usize = 20;
pub const MAX_METADATA_VALUE_LEN: u32 = 256;

/// Every tag holds at most `MAX_TAG_LEN` bytes.
pub open spec fn tags_within(tags: Seq<String>) -> bool {
    forall|i: int| 0 <= i < tags.len() ==> byte_len((#[trigger] tags[i])@) <= MAX_TAG_LEN
}

/// The first constraint that a product's fields break, checked in a fixed order.
pub open spec fn fields_error(
    id: Seq<char>,
    name: Seq<char>,
    description: Seq<char>,
    origin: Seq<char>,
    category: Seq<char>,
    tags: Seq<String>,
    n_certifications: nat,
    n_media_hashes: nat,
    custom: FieldsView,
) -> Option<Error> {
    if byte_len(id) == 0 {
        Some(Error::InvalidProductId)
    } else if byte_len(id) > MAX_ID_LEN {
        Some(Error::ProductIdTooLong)
    } else if byte_len(name) == 0 {
        Some(Error::InvalidProductName)
    } else if byte_len(name) > MAX_NAME_LEN {
        Some(Error::ProductNameTooLong)
    } else if byte_len(origin) == 0 {
        Some(Error::InvalidOrigin)
    } else if byte_len(origin) > MAX_ORIGIN_LEN {
        Some(Error::OriginTooLong)
    } else if byte_len(category) == 0 {
        Some(Error::InvalidCategory)
    } else if byte_len(category) > MAX_CATEGORY_LEN {
        Some(Error::CategoryTooLong)
    } else if byte_len(description) > MAX_DESCRIPTION_LEN {
        Some(Error::DescriptionTooLong)
    } else if tags.len() > MAX_TAGS {
        Some(Error::TooManyTags)
    } else if !tags_within(tags) {
        Some(Error::TagTooLong)
    } else if n_certifications > MAX_CERTIFICATIONS {
        Some(Error::TooManyCertifications)
    } else if n_media_hashes > MAX_MEDIA_HASHES {
        Some(Error::TooManyMediaHashes)
    } else if custom.len() > MAX_CUSTOM_FIELDS {
        Some(Error::TooManyCustomFields)
    } else if !values_within(custom, MAX_CUSTOM_VALUE_LEN) {
        Some(Error::CustomFieldValueTooLong)
    } else {
        None
    }
}

/// The first constraint that a product input breaks.
pub open spec fn input_error(inp: ProductInput) -> Option<Error> {
    fields_error(
        inp.id@,
        inp.name@,
        inp.description@,
        inp.origin_location@,
        inp.category@,
        inp.tags@,
        inp.certifications@.len(),
        inp.media_hashes@.len(),
        inp.custom@,
    )
}

/// The first constraint that an event's metadata breaks.
pub open spec fn metadata_error(metadata: FieldsView) -> Option<Error> {
    if metadata.len() > MAX_METADATA_FIELDS {
        Some(Error::TooManyCustomFields)
    } else if !values_within(metadata, MAX_METADATA_VALUE_LEN) {
        Some(Error::CustomFieldValueTooLong)
    } else {
        None
    }
}

/// Reads an optional error as a result.
pub open spec fn as_result(e: Option<Error>) -> Result<(), Error> {
    match e {
        Some(e) => Err(e),
        None => Ok(()),
    }
}

/// True when every tag holds at most `MAX_TAG_LEN` bytes.
fn check_tags(tags: &Vec<String>) -> (r: bool)
    ensures
        r == tags_within(tags@),
{
    let mut i: usize = 0;
    while i < tags.len()
        invariant
            i <= tags@.len(),
            forall|j: int| 0 <= j < i ==> byte_len((#[trigger] tags@[j])@) <= MAX_TAG_LEN,
        decreases tags.len() - i,
    {
        if !max_len(&tags[i], MAX_TAG_LEN) {
            return false;
        }
        i += 1;
    }
    true
}

/// Checks a product's fields in the order of `fields_error`.
pub fn check_product_fields(
    id: &String,
    name: &String,
    description: &String,
    origin_location: &String,
    category: &String,
    tags: &Vec<String>,
    certifications: &Vec<Hash32>,
    media_hashes: &Vec<Hash32>,
    custom: &FieldMap,
) -> (r: Result<(), Error>)
    ensures
        r == as_result(
            fields_error(
                id@,
                name@,
                description@,
                origin_location@,
                category@,
                tags@,
                certifications@.len(),
                media_hashes@.len(),
                custom@,
            ),
        ),
{
    if !non_empty(id) {
        return Err(Error::InvalidProductId);
    }
    if !max_len(id, MAX_ID_LEN) {
        return Err(Error::ProductIdTooLong);
    }
    if !non_empty(name) {
        return Err(Error::InvalidProductName);
    }
    if !max_len(name, MAX_NAME_LEN) {
        return Err(Error::ProductNameTooLong);
    }
    if !non_empty(origin_location) {
        return Err(Error::InvalidOrigin);
    }
    if !max_len(origin_location, MAX_ORIGIN_LEN) {
        return Err(Error::OriginTooLong);
    }
    if !non_empty(category) {
        return Err(Error::InvalidCategory);
    }
    if !max_len(category, MAX_CATEGORY_LEN) {
        return Err(Error::CategoryTooLong);
    }
    if !max_len(description, MAX_DESCRIPTION_LEN) {
        return Err(Error::DescriptionTooLong);
    }
    if tags.len() > MAX_TAGS {
        return Err(Error::TooManyTags);
    }
    if !check_tags(tags) {
        return Err(Error::TagTooLong);
    }
    if certifications.len() > MAX_CERTIFICATIONS {
        return Err(Error::TooManyCertifications);
    }
    if media_hashes.len() > MAX_MEDIA_HASHES {
        return Err(Error::TooManyMediaHashes);
    }
    if custom.len() > MAX_CUSTOM_FIELDS {
        return Err(Error::TooManyCustomFields);
    }
    if !custom.values_within(MAX_CUSTOM_VALUE_LEN) {
        return Err(Error::CustomFieldValueTooLong);
    }
    Ok(())
}

/// Checks an event's metadata in the order of `metadata_error`.
pub fn check_metadata(metadata: &FieldMap) -> (r: Result<(), Error>)
    ensures
        r == as_result(metadata_error(metadata@)),
{
    if metadata.len() > MAX_METADATA_FIELDS {
        return Err(Error::TooManyCustomFields);
    }
    if !metadata.values_within(MAX_METADATA_VALUE_LEN) {
        return Err(Error::CustomFieldValueTooLong);
    }
    Ok(())
}

} // verus!
