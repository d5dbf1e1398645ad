//! What describes the collection as a whole.

use vstd::prelude::*;

verus! {

/// The version of the metadata standard that the collection follows.
pub open spec fn nft_metadata_spec() -> Seq<char> {
    "nft-1.0.0"@
}

/// The length that a reference hash must have, in bytes.
pub const REFERENCE_HASH_LEN: usize = 32;

/// The description of the collection.
#[derive(Debug, Clone, PartialEq, Eq)]
pub struct ContractMetadata {
    /// The version of the metadata standard.
    pub standard: String,
    pub name: String,
    pub symbol: String,
    pub icon: Option<String>,
    pub base_uri: Option<String>,
    /// Where more is said of the collection.
    pub reference: Option<String>,
    /// The hash of what `reference` points to.
    pub reference_hash: Option<Vec<u8>>,
}

impl ContractMetadata {
    /// The description follows the standard, and it names a reference
    /// exactly if it gives the reference's hash, which has 32 bytes.
    pub open spec fn valid(&self) -> bool {
        &&& self.standard@ == nft_metadata_spec()
        &&& self.reference is Some <==> self.reference_hash is Some
        &&& self.reference_hash matches Some(hash) ==> hash@.len() == REFERENCE_HASH_LEN
    }

    /// Whether the description is valid.
    pub fn is_valid(&self) -> (b: bool)
        ensures
            b == self.valid(),
    {
        if !(self.standard == "nft-1.0.0".to_owned()) {
            return false;
        }
        if self.reference.is_some() != self.reference_hash.is_some() {
            return false;
        }
        match &self.reference_hash {
            Some(hash) => hash.len() == REFERENCE_HASH_LEN,
            None => true,
        }
    }
}

} // verus!
