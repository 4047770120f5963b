//! Incremental SHA-256: the digest of content fed in pieces, as a file is read.

use vstd::prelude::*;
use sha2::Digest;
use crate::migrate::sha256_of;

verus! {

/// A `sha2::Sha256` state that content is fed into. The type is generic over
/// `digest`'s core wrapper with bounds in `typenum` traits, which Verus does
/// not take in a type declaration, so it is held in a private field here.
#[verifier::external_body]
pub struct Sha256State {
    inner: sha2::Sha256,
}

/// The bytes fed into a SHA-256 state since it was created.
pub uninterp spec fn sha256_input(state: Sha256State) -> Seq<u8>;

/// `Digest::new` for `sha2::Sha256`: a state that has seen nothing.
#[verifier::external_body]
fn sha256_new() -> (r: Sha256State)
    ensures sha256_input(r) == Seq::<u8>::empty(),
{
    Sha256State { inner: sha2::Sha256::new() }
}

/// `Digest::update` for `sha2::Sha256`: feeds a chunk after what the state
/// has seen.
#[verifier::external_body]
fn sha256_update(state: &mut Sha256State, chunk: &[u8])
    ensures sha256_input(*final(state)) == sha256_input(*old(state)) + chunk@,
{
    Digest::update(&mut state.inner, chunk)
}

/// `Digest::finalize` for `sha2::Sha256`: the 32-byte SHA-256 of everything
/// the state has seen.
#[verifier::external_body]
fn sha256_finalize(state: Sha256State) -> (r: Vec<u8>)
    ensures
        r@ == sha256_of(sha256_input(state)),
        r@.len() == 32,
{
    Digest::finalize(state.inner).to_vec()
}

/// A SHA-256 computation over content fed in chunks.
pub struct Sha256Hasher {
    state: Sha256State,
    seen: Ghost<Seq<u8>>,
}

impl Sha256Hasher {
    /// The bytes fed in so far.
    pub closed spec fn seen(&self) -> Seq<u8> {
        self.seen@
    }

    /// The state holds exactly the bytes seen.
    pub closed spec fn wf(&self) -> bool {
        sha256_input(self.state) == self.seen@
    }

    /// A hasher that has seen nothing.
    pub fn new() -> (r: Sha256Hasher)
        ensures
            r.wf(),
            r.seen() == Seq::<u8>::empty(),
    {
        Sha256Hasher { state: sha256_new(), seen: Ghost(Seq::empty()) }
    }

    /// Feeds the next chunk of content.
    pub fn update(&mut self, chunk: &[u8])
        requires old(self).wf(),
        ensures
            final(self).wf(),
            final(self).seen() == old(self).seen() + chunk@,
    {
        sha256_update(&mut self.state, chunk);
        self.seen = Ghost(self.seen@ + chunk@);
    }

    /// The SHA-256 of everything fed in.
    pub fn finish(self) -> (d: Vec<u8>)
        requires self.wf(),
        ensures
            d@ == sha256_of(self.seen()),
            d@.len() == 32,
    {
        sha256_finalize(self.state)
    }
}

} // verus!
