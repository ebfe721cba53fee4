//! The driver's document type, carried through the stores as an opaque payload.

use vstd::prelude::*;

verus! {

/// `mongodb::bson::Document`, an ordered map of BSON values. The stores keep
/// documents, copy them and hand them back without looking inside.
#[verifier::external_type_specification]
#[verifier::external_body]
pub struct ExDocument(mongodb::bson::Document);

/// `<Document as Clone>::clone` is trusted to give a document equal to the
/// one it was called on: the same keys in the same order with the same values.
pub assume_specification[ <mongodb::bson::Document as Clone>::clone ](
    document: &mongodb::bson::Document,
) -> (copy: mongodb::bson::Document)
    ensures
        copy == *document,
;

} // verus!
