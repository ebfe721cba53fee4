//! The errors that the operations on a database connection report.

use vstd::prelude::*;

verus! {

/// What went wrong in an operation on the database connection.
#[derive(Clone, Debug, PartialEq, Eq)]
pub enum PError {
    ClientNotAvailable,
    CannotConnectToMongodb,
    CannotListDatabases,
    CannotListCollections,
    CannotFindServerInfo,
    CursorFailure,
    DocumentCountFailed,
    /// An error of the driver: its kind, written out, and its labels.
    MongodbError(String, Vec<String>),
    /// A value could not be written as BSON: the serializer's message.
    BsonSerializationError(String),
}

} // verus!
