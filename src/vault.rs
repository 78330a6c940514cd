use vstd::prelude::*;

verus! {

/// A private key that a user keeps in the secret store.
pub struct Key {
    pub private_key: String,
}

} // verus!
