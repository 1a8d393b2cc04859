//! The ways in which an operation of the store fails.

use vstd::prelude::*;
use crate::exchange::IoFailure;

verus! {

/// Why an operation of the store failed.
#[derive(Debug)]
pub enum DatabaseError {
    /// The file system did not serve a request, or a name was refused.
    IoError(IoFailure),
    /// A stored file does not hold a document.
    BsonDeError(bson::de::Error),
    /// A document could not be encoded.
    BsonSerError(bson::ser::Error),
}

} // verus!
