//! What a caller supplies when a token is minted.

use vstd::prelude::*;

verus! {

/// The descriptive fields that the minter chooses.
#[derive(Debug, Clone, PartialEq, Eq)]
pub struct TokenCreateMetadata {
    pub title: String,
    pub description: String,
}

/// The characters of a [`TokenCreateMetadata`].
pub struct TokenCreateMetadataView {
    pub title: Seq<char>,
    pub description: Seq<char>,
}

impl View for TokenCreateMetadata {
    type V = TokenCreateMetadataView;

    open spec fn view(&self) -> TokenCreateMetadataView {
        TokenCreateMetadataView { title: self.title@, description: self.description@ }
    }
}

} // verus!
