//! A byte buffer for secret material that can be wiped on demand.
//!
//! The buffer offers no `Debug` or implicit duplication: the only ways out of
//! it are an explicit borrow of the bytes or an explicit move into a plain
//! vector, and `wipe` overwrites the backing memory with zeros.

use vstd::prelude::*;

verus! {

/// A container for sensitive bytes.
pub struct SecureBytes {
    data: Vec<u8>,
}

impl View for SecureBytes {
    type V = Seq<u8>;

    closed spec fn view(&self) -> Seq<u8> {
        self.data@
    }
}

/// Relies on zeroize's `Zeroize` impl for `Vec<u8>`: every element and the
/// spare capacity are overwritten with zeros, then the vector is cleared.
#[verifier::external_body]
fn wipe_vec(v: &mut Vec<u8>)
    ensures
        final(v)@.len() == 0,
{
    zeroize::Zeroize::zeroize(v);
}

impl SecureBytes {
    /// Take ownership of the given bytes.
    pub fn new(data: Vec<u8>) -> (r: Self)
        ensures
            r@ == data@,
    {
        SecureBytes { data }
    }

    /// An empty buffer that has room for `capacity` bytes.
    pub fn with_capacity(capacity: usize) -> (r: Self)
        ensures
            r@.len() == 0,
    {
        SecureBytes { data: Vec::with_capacity(capacity) }
    }

    /// A buffer of `len` zero bytes.
    pub fn zeroed(len: usize) -> (r: Self)
        ensures
            r@.len() == len,
            forall|i: int| 0 <= i < len ==> r@[i] == 0u8,
    {
        let mut data: Vec<u8> = Vec::with_capacity(len);
        let mut i: usize = 0;
        while i < len
            invariant
                i <= len,
                data@.len() == i,
                forall|j: int| 0 <= j < i ==> data@[j] == 0u8,
            decreases len - i,
        {
            data.push(0u8);
            i = i + 1;
        }
        SecureBytes { data }
    }

    /// How many bytes are held.
    pub fn len(&self) -> (n: usize)
        ensures
            n == self@.len(),
    {
        self.data.len()
    }

    /// Whether no bytes are held.
    pub fn is_empty(&self) -> (b: bool)
        ensures
            b == (self@.len() == 0),
    {
        self.data.len() == 0
    }

    /// Borrow the bytes.
    pub fn as_slice(&self) -> (r: &[u8])
        ensures
            r@ == self@,
    {
        self.data.as_slice()
    }

    /// Move the bytes out into a plain vector, which is no longer protected.
    pub fn into_vec(self) -> (r: Vec<u8>)
        ensures
            r@ == self@,
    {
        self.data
    }

    /// Overwrite the contents with zeros and drop them.
    pub fn wipe(&mut self)
        ensures
            final(self)@.len() == 0,
    {
        wipe_vec(&mut self.data);
    }
}

} // verus!
