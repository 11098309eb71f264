use vstd::prelude::*;
use crate::field::{Bn256F, be_nat, element_of, lemma_element_of};
use crate::utils::bytes_be_to_f;

verus! {

/// An opaque proof produced by a backend.
#[derive(Clone, Debug, PartialEq, Eq)]
pub struct Proof {
    pub bytes: Vec<u8>,
}

/// The public part of one circuit instance: the commitments that a proof opens.
#[derive(Clone, Copy, Debug, PartialEq, Eq)]
pub struct PublicInput<F> {
    /// The id of the chunk.
    pub id: u64,
    /// The commitment to the chunk of plaintext.
    pub plaintext_commitment: F,
    /// The commitment to the sum of the chunk's active encodings.
    pub encoding_sum_commitment: F,
}

/// The prover's input for one circuit instance, which proves one chunk.
#[derive(Clone, Debug, PartialEq, Eq)]
pub struct ProverInput<F> {
    pub plaintext: Vec<u8>,
    pub plaintext_salt: F,
    pub encoding_sum: F,
    pub encoding_sum_salt: F,
    pub public: PublicInput<F>,
}

/// Errors of the proving side.
#[derive(Clone, Copy, Debug, PartialEq, Eq, Structural)]
pub enum ProverError {
    /// A count or a size does not match.
    InvalidInput,
    /// The proof system failed internally.
    BackendFailure,
    /// Sending a message failed.
    ChannelFailure,
    /// The encodings of a committed chunk could not be had.
    EncodingUnavailable,
}

/// Errors of the verifying side.
#[derive(Clone, Copy, Debug, PartialEq, Eq, Structural)]
pub enum VerifierError {
    /// A count or a size does not match.
    InvalidInput,
    /// Inputs and proofs cannot be paired.
    BatchMismatch,
    /// A proof did not verify.
    VerificationFailed,
}

/// Methods for working with a field element.
pub trait Field: Sized {
    /// The value is an element of the field.
    spec fn valid(&self) -> bool;

    /// The element that `from_bytes_be` gives for `bytes`.
    spec fn spec_from_bytes_be(bytes: Seq<u8>) -> Self;

    /// The additive identity.
    spec fn spec_zero() -> Self;

    /// The sum of two elements.
    spec fn spec_add(&self, other: &Self) -> Self;

    /// Creates a new field element from bytes in big-endian byte order.
    fn from_bytes_be(bytes: Vec<u8>) -> (r: Self)
        requires
            bytes@.len() <= 64,
        ensures
            r.valid(),
            r == Self::spec_from_bytes_be(bytes@),
    ;

    /// Returns zero, the additive identity.
    fn zero() -> (r: Self)
        ensures
            r.valid(),
            r == Self::spec_zero(),
    ;

    /// Returns the sum of two elements.
    fn add(&self, other: &Self) -> (r: Self)
        requires
            self.valid(),
            other.valid(),
        ensures
            r.valid(),
            r == self.spec_add(other),
    ;
}

impl Field for Bn256F {
    open spec fn valid(&self) -> bool {
        self.wf()
    }

    open spec fn spec_from_bytes_be(bytes: Seq<u8>) -> Bn256F {
        element_of(be_nat(bytes))
    }

    open spec fn spec_zero() -> Bn256F {
        element_of(0)
    }

    open spec fn spec_add(&self, other: &Bn256F) -> Bn256F {
        element_of(self.value() + other.value())
    }

    fn from_bytes_be(bytes: Vec<u8>) -> (r: Bn256F) {
        let r = bytes_be_to_f(bytes);
        proof {
            lemma_element_of(r, be_nat(bytes@));
        }
        r
    }

    fn zero() -> (r: Bn256F) {
        let r = Bn256F::zero();
        proof {
            lemma_element_of(r, 0);
        }
        r
    }

    fn add(&self, other: &Bn256F) -> (r: Bn256F) {
        let r = Bn256F::add(self, other);
        proof {
            lemma_element_of(r, self.value() + other.value());
        }
        r
    }
}

/// A zk proof generation backend.
pub trait ProverBackend<F: Field> {
    /// Creates a commitment to the plaintext, padding the plaintext to the
    /// chunk size. Returns the commitment and the salt it was made with.
    fn commit_plaintext(&self, plaintext: Vec<u8>) -> (r: (F, F))
        ensures
            r.0.valid(),
            r.1.valid(),
    ;

    /// Creates a commitment to the encoding sum. Returns the commitment and
    /// the salt it was made with.
    fn commit_encoding_sum(&self, encoding_sum: F) -> (r: (F, F))
        requires
            encoding_sum.valid(),
        ensures
            r.0.valid(),
            r.1.valid(),
    ;

    /// Generates proofs for `inputs`, each of which proves one chunk.
    fn prove(&self, inputs: Vec<ProverInput<F>>) -> (r: Result<Vec<Proof>, ProverError>);

    /// The size in bytes of a chunk of plaintext; the salt is not included.
    fn chunk_size(&self) -> (r: usize);
}

/// A zk proof verification backend.
pub trait VerifierBackend<F: Field> {
    /// Verifies `inputs` against `proofs`; the backend pairs them itself.
    fn verify(&self, inputs: Vec<PublicInput<F>>, proofs: Vec<Proof>) -> (r: Result<
        (),
        VerifierError,
    >);

    /// The size in bytes of a chunk of plaintext; the salt is not included.
    fn chunk_size(&self) -> (r: usize);
}

} // verus!
