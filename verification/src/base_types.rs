//! Plain-value models of the object, address and owner types that the
//! benchmark logic reads.

use vstd::prelude::*;

verus! {

/// A 32-byte account address, held as two big-endian halves.
#[derive(Clone, Copy, Debug, PartialEq, Eq, Hash, Structural)]
pub struct SuiAddress {
    pub high: u128,
    pub low: u128,
}

/// A 32-byte object identifier, held as two big-endian halves.
#[derive(Clone, Copy, Debug, PartialEq, Eq, Hash, Structural)]
pub struct ObjectID {
    pub high: u128,
    pub low: u128,
}

/// A 32-byte object digest, held as two big-endian halves.
#[derive(Clone, Copy, Debug, PartialEq, Eq, Hash, Structural)]
pub struct ObjectDigest {
    pub high: u128,
    pub low: u128,
}

/// The version of an object.
pub type SequenceNumber = u64;

/// A reference to one version of an object.
pub type ObjectRef = (ObjectID, SequenceNumber, ObjectDigest);

/// Who owns an object.
#[derive(Clone, Copy, Debug, PartialEq, Eq, Hash, Structural)]
pub enum Owner {
    AddressOwner(SuiAddress),
    ObjectOwner(SuiAddress),
    Shared { initial_shared_version: SequenceNumber },
    Immutable,
}

/// Errors of the benchmark logic.
#[derive(Clone, Copy, Debug, PartialEq, Eq, Structural)]
pub enum BenchmarkError {
    /// The owner of an object is not an address (it is shared or immutable).
    UnexpectedOwnerType,
    /// The gas object of a transaction is not among the objects it mutated.
    InputGasMissing,
    /// A transferred coin is owned by an address for which no key pair was configured.
    OwnerAddressMissing,
}

/// The address behind an owner, where it has one.
pub open spec fn owner_address(owner: Owner) -> Option<SuiAddress> {
    match owner {
        Owner::AddressOwner(a) => Some(a),
        Owner::ObjectOwner(a) => Some(a),
        _ => None,
    }
}

impl Owner {
    /// The address of an address or object owner; an error for a shared or
    /// immutable object.
    pub fn get_owner_address(&self) -> (r: Result<SuiAddress, BenchmarkError>)
        ensures
            match owner_address(*self) {
                Some(a) => r == Ok::<SuiAddress, BenchmarkError>(a),
                None => r == Err::<SuiAddress, BenchmarkError>(BenchmarkError::UnexpectedOwnerType),
            },
    {
        match self {
            Owner::AddressOwner(a) => Ok(*a),
            Owner::ObjectOwner(a) => Ok(*a),
            _ => Err(BenchmarkError::UnexpectedOwnerType),
        }
    }
}

} // verus!
