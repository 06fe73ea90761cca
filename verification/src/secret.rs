//! Secrets that do not outlive their use.

use vstd::prelude::*;
use crate::bytes::to_vec;
use crate::filter::aes7z::wipe_bytes;

verus! {

/// Secret bytes.
pub struct SecretBytes {
    bytes: Vec<u8>,
}

impl View for SecretBytes {
    type V = Seq<u8>;

    closed spec fn view(&self) -> Seq<u8> {
        self.bytes@
    }
}

impl SecretBytes {
    /// Takes bytes as a secret.
    pub fn new(bytes: Vec<u8>) -> (secret: Self)
        ensures
            secret@ == bytes@,
    {
        SecretBytes { bytes }
    }

    /// Copies bytes as a secret.
    pub fn from_slice(bytes: &[u8]) -> (secret: Self)
        ensures
            secret@ == bytes@,
    {
        SecretBytes { bytes: to_vec(bytes) }
    }

    /// The bytes, for a cryptographic operation.
    pub fn expose(&self) -> (bytes: &[u8])
        ensures
            bytes@ == self@,
    {
        self.bytes.as_slice()
    }

    /// Another copy of the secret.
    pub fn duplicate(&self) -> (copy: Self)
        ensures
            copy@ == self@,
    {
        SecretBytes { bytes: to_vec(self.bytes.as_slice()) }
    }

    /// Overwrites the secret; nothing is left of it.
    pub fn wipe(&mut self)
        ensures
            final(self)@.len() == 0,
    {
        wipe_bytes(&mut self.bytes);
    }
}

} // verus!
