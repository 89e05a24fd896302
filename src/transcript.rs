use vstd::prelude::*;

use crate::field::{le_value, modulus, Fq};

verus! {

/// Bytes drawn from the transcript for each field element, reduced modulo q.
pub const CONSTANT_BYTES: usize = 64;

#[verifier::external_type_specification]
#[verifier::external_body]
pub struct ExMerlinTranscript(merlin::Transcript);

/// What merlin's `challenge_bytes` returns for a challenge of `len` bytes under `label`,
/// drawn from a transcript that has absorbed `ops` (see [`ConstantsTranscript::ops`]).
pub uninterp spec fn challenge_of(ops: Seq<(int, Seq<char>, Seq<u8>)>, label: Seq<char>, len: nat) -> Seq<u8>;

/// A single-use, deterministic transcript: every step absorbed so far is kept as a
/// ghost log, from which each challenge is determined.
pub struct ConstantsTranscript {
    inner: merlin::Transcript,
    ops: Ghost<Seq<(int, Seq<char>, Seq<u8>)>>,
}

impl ConstantsTranscript {
    /// The steps absorbed so far: `(0, label, [])` for the opening domain separator,
    /// `(1, label, message)` for a message and `(2, label, output)` for a challenge.
    pub closed spec fn ops(&self) -> Seq<(int, Seq<char>, Seq<u8>)> {
        self.ops@
    }

    /// Relies on merlin's `Transcript::new`: a fresh transcript separated by `label`.
    #[verifier::external_body]
    pub(crate) fn new(label: &'static str) -> (r: ConstantsTranscript)
        ensures
            r.ops() == seq![(0int, label@, Seq::<u8>::empty())],
    {
        ConstantsTranscript { inner: merlin::Transcript::new(label.as_bytes()), ops: Ghost(Seq::empty()) }
    }

    /// Relies on merlin's `Transcript::append_message`: absorbs `message` under `label`;
    /// merlin refuses messages longer than `u32::MAX` bytes.
    #[verifier::external_body]
    pub(crate) fn absorb(&mut self, label: &'static str, message: &Vec<u8>)
        requires
            message@.len() <= u32::MAX,
        ensures
            final(self).ops() == old(self).ops().push((1int, label@, message@)),
    {
        self.inner.append_message(label.as_bytes(), message.as_slice())
    }

    /// Relies on merlin's `Transcript::challenge_bytes`: `len` bytes determined by what was
    /// absorbed before and by the request itself, which is absorbed in turn; merlin
    /// refuses requests longer than `u32::MAX` bytes.
    #[verifier::external_body]
    pub(crate) fn challenge(&mut self, label: &'static str, len: usize) -> (r: Vec<u8>)
        requires
            len <= u32::MAX,
        ensures
            r@.len() == len,
            r@ == challenge_of(old(self).ops(), label@, len as nat),
            final(self).ops() == old(self).ops().push((2int, label@, r@)),
    {
        let mut buf = vec![0u8; len];
        self.inner.challenge_bytes(label.as_bytes(), &mut buf);
        buf
    }

    /// Draws a field element: `CONSTANT_BYTES` challenge bytes under the label
    /// `round-constant`, read as a little-endian integer and reduced modulo q.
    pub(crate) fn round_constant(&mut self) -> (r: Fq)
        ensures
            r.wf(),
            r.val() == le_value(
                challenge_of(old(self).ops(), "round-constant"@, CONSTANT_BYTES as nat),
            ) % modulus(),
            final(self).ops() == old(self).ops().push(
                (
                    2int,
                    "round-constant"@,
                    challenge_of(old(self).ops(), "round-constant"@, CONSTANT_BYTES as nat),
                ),
            ),
    {
        let bytes = self.challenge("round-constant", CONSTANT_BYTES);
        Fq::from_le_bytes_mod_order(bytes.as_slice())
    }
}

} // verus!
