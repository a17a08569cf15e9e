use vstd::prelude::*;

use md5::{Digest, Md5};

use crate::hex::{hex_lower, hex_of};
use crate::naming::md5_of;

verus! {

/// An md5::Md5 hasher. Verus cannot declare the type itself (its `where` clause
/// bounds are typenum arithmetic), so it is held here, opaque.
#[verifier::external_body]
pub struct Md5State {
    inner: Md5,
}

/// The bytes that an MD5 hasher has been fed since it was made.
pub uninterp spec fn md5_fed(h: Md5State) -> Seq<u8>;

/// Relies on md5::Md5::new (Digest::new): a hasher that has been fed nothing.
#[verifier::external_body]
fn md5_new() -> (r: Md5State)
    ensures
        md5_fed(r) == Seq::<u8>::empty(),
{
    Md5State { inner: Md5::new() }
}

/// Relies on md5::Md5::update (Digest::update): appends `data` to what was fed.
#[verifier::external_body]
fn md5_update(h: &mut Md5State, data: &[u8])
    ensures
        md5_fed(*final(h)) == md5_fed(*old(h)) + data@,
{
    Digest::update(&mut h.inner, data)
}

/// Relies on md5::Md5::finalize (Digest::finalize): the MD5 digest of all bytes
/// fed, the same as md5::Md5::digest over their concatenation.
#[verifier::external_body]
fn md5_finalize(h: Md5State) -> (r: Vec<u8>)
    ensures
        r@ == md5_of(md5_fed(h)),
        r@.len() == 16,
{
    h.inner.finalize().to_vec()
}

/// Computes the content hash of bytes fed in spans of any size.
pub struct ContentHasher {
    state: Md5State,
}

impl ContentHasher {
    /// All bytes fed so far.
    pub closed spec fn fed(&self) -> Seq<u8> {
        md5_fed(self.state)
    }

    /// A hasher that has been fed nothing.
    pub fn new() -> (r: Self)
        ensures
            r.fed() == Seq::<u8>::empty(),
    {
        ContentHasher { state: md5_new() }
    }

    /// Feeds `data`.
    pub fn update(&mut self, data: &[u8])
        ensures
            final(self).fed() == old(self).fed() + data@,
    {
        md5_update(&mut self.state, data);
    }

    /// The lowercase hex MD5 of everything fed.
    pub fn finish(self) -> (r: Vec<u8>)
        ensures
            r@ == hex_of(md5_of(self.fed())),
            r@.len() == 32,
    {
        let d = md5_finalize(self.state);
        hex_lower(d.as_slice())
    }
}

} // verus!
