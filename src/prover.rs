use vstd::prelude::*;
use crate::backend::{Field, Proof, ProverBackend, ProverError, ProverInput, PublicInput};

verus! {

/// A chunk of plaintext to be committed to, with its id.
#[derive(Clone, Debug, PartialEq, Eq)]
pub struct CommitmentData {
    pub id: u64,
    pub plaintext: Vec<u8>,
}

/// A commitment to a chunk of plaintext, kept by the prover.
#[derive(Clone, Debug, PartialEq, Eq)]
pub struct PlaintextCommitment<F> {
    pub id: u64,
    pub plaintext: Vec<u8>,
    pub commitment: F,
    pub salt: F,
}

/// What the verifier learns of one commitment.
#[derive(Clone, Copy, Debug, PartialEq, Eq)]
pub struct CommitEntry<F> {
    pub id: u64,
    pub commitment: F,
}

/// A message from the prover to the verifier.
#[derive(Clone, Debug, PartialEq, Eq)]
pub enum Message<F> {
    /// The commitments, one per chunk.
    Commit(Vec<CommitEntry<F>>),
    /// The proofs.
    Proofs(Vec<Proof>),
}

/// The encodings of each bit of a chunk, most significant bit of the first
/// byte first: for every bit, the encoding of 0 and the encoding of 1, each
/// as 16 big-endian bytes.
#[derive(Clone, Debug, PartialEq, Eq)]
pub struct FullEncodings {
    pub encodings: Vec<([u8; 16], [u8; 16])>,
}

/// A source of full encodings, keyed by chunk id.
pub trait EncodingProvider {
    /// The full encodings of the chunks with `ids`, in the same order, or
    /// `None` where they cannot be had.
    fn get_by_ids(&self, ids: &Vec<u64>) -> Option<Vec<FullEncodings>>;
}

/// The state of a prover that has not committed yet.
pub struct Initialized;

/// The state of a prover that has committed to its plaintext.
pub struct Committed<F> {
    commitments: Vec<PlaintextCommitment<F>>,
}

/// The state of a prover that has produced its proofs.
pub struct ProofGenerated<F> {
    commitments: Vec<PlaintextCommitment<F>>,
}

/// Prover in the AuthDecode protocol. The state moves from `Initialized` to
/// `Committed` to `ProofGenerated`; each step consumes the prover.
pub struct Prover<B, S> {
    backend: B,
    chunk_size: usize,
    state: S,
}

impl<B, S> Prover<B, S> {
    /// The backend of the session.
    pub closed spec fn backend(&self) -> B {
        self.backend
    }

    /// The chunk size of the backend, read once when the session was created.
    pub closed spec fn chunk_size(&self) -> nat {
        self.chunk_size as nat
    }
}

impl<B, F> Prover<B, Committed<F>> {
    /// The commitments made in the commit step.
    pub closed spec fn commitments(&self) -> Seq<PlaintextCommitment<F>> {
        self.state.commitments@
    }
}

impl<B, F> Prover<B, ProofGenerated<F>> {
    /// The commitments that the proofs open.
    pub closed spec fn proven(&self) -> Seq<PlaintextCommitment<F>> {
        self.state.commitments@
    }
}

impl<F> Message<F> {
    /// The entries of a `Commit` message; empty for any other.
    pub open spec fn commit_entries(&self) -> Seq<CommitEntry<F>> {
        match self {
            Message::Commit(v) => v@,
            _ => Seq::empty(),
        }
    }

    /// The proofs of a `Proofs` message; empty for any other.
    pub open spec fn proofs(&self) -> Seq<Proof> {
        match self {
            Message::Proofs(v) => v@,
            _ => Seq::empty(),
        }
    }
}

/// Every plaintext fits in a chunk of `chunk_size` bytes.
pub open spec fn all_fit(data_set: Seq<CommitmentData>, chunk_size: nat) -> bool {
    forall|i: int| 0 <= i < data_set.len() ==> #[trigger] data_set[i].plaintext@.len() <= chunk_size
}

/// The encodings cover every committed chunk, one for one.
pub open spec fn encodings_match<F>(
    commitments: Seq<PlaintextCommitment<F>>,
    encodings: Seq<FullEncodings>,
) -> bool {
    &&& encodings.len() == commitments.len()
    &&& forall|i: int|
        0 <= i < encodings.len() ==> #[trigger] encodings[i].encodings@.len() == 8
            * commitments[i].plaintext@.len()
}

/// The bit of `plaintext` at `i`, counting the most significant bit of the
/// first byte as 0.
pub open spec fn plaintext_bit(plaintext: Seq<u8>, i: int) -> bool {
    (plaintext[i / 8] >> ((7 - i % 8) as u8)) & 1 == 1
}

fn array_to_vec(a: &[u8; 16]) -> (r: Vec<u8>)
    ensures
        r@ == a@,
{
    let mut v: Vec<u8> = Vec::new();
    let mut i: usize = 0;
    while i < 16
        invariant
            i <= 16,
            v@ =~= a@.take(i as int),
        decreases 16 - i,
    {
        v.push(a[i]);
        i = i + 1;
    }
    proof {
        assert(a@.take(16) =~= a@);
    }
    v
}

/// The active encodings of `plaintext`: for every bit, most significant bit
/// of the first byte first, the encoding of that bit's value.
pub open spec fn active_of(plaintext: Seq<u8>, full: FullEncodings) -> Seq<[u8; 16]> {
    Seq::new(
        full.encodings@.len(),
        |i: int|
            if plaintext_bit(plaintext, i) {
                full.encodings@[i].1
            } else {
                full.encodings@[i].0
            },
    )
}

/// The sum, starting from zero, of the field elements that the big-endian
/// encodings `s` stand for, added in order.
pub open spec fn sum_of<F: Field>(s: Seq<[u8; 16]>) -> F
    decreases s.len(),
{
    if s.len() == 0 {
        F::spec_zero()
    } else {
        sum_of::<F>(s.drop_last()).spec_add(&F::spec_from_bytes_be(s.last()@))
    }
}

/// Picks, for every bit of `plaintext`, the encoding of that bit's value,
/// most significant bit of the first byte first.
pub fn active_encodings(plaintext: &Vec<u8>, full: &FullEncodings) -> (r: Vec<[u8; 16]>)
    requires
        full.encodings@.len() == 8 * plaintext@.len(),
    ensures
        r@ == active_of(plaintext@, *full),
{
    let total = full.encodings.len();
    let mut r: Vec<[u8; 16]> = Vec::new();
    let mut j: usize = 0;
    while j < plaintext.len()
        invariant
            full.encodings@.len() == 8 * plaintext@.len(),
            total == full.encodings@.len(),
            j <= plaintext@.len(),
            r@.len() == 8 * j,
            forall|i: int|
                0 <= i < r@.len() ==> #[trigger] r@[i] == if plaintext_bit(plaintext@, i) {
                    full.encodings@[i].1
                } else {
                    full.encodings@[i].0
                },
        decreases plaintext@.len() - j,
    {
        let byte = plaintext[j];
        let mut t: usize = 0;
        while t < 8
            invariant
                full.encodings@.len() == 8 * plaintext@.len(),
                total == full.encodings@.len(),
                j < plaintext@.len(),
                byte == plaintext@[j as int],
                t <= 8,
                r@.len() == 8 * j + t,
                forall|i: int|
                    0 <= i < r@.len() ==> #[trigger] r@[i] == if plaintext_bit(plaintext@, i) {
                        full.encodings@[i].1
                    } else {
                        full.encodings@[i].0
                    },
            decreases 8 - t,
        {
            assert(8 * j + t < full.encodings@.len());
            let k = 8 * j + t;
            let bit = (byte >> ((7 - t) as u8)) & 1 == 1;
            proof {
                assert((k as int) / 8 == j as int);
                assert((k as int) % 8 == t as int);
                assert(bit == plaintext_bit(plaintext@, k as int));
            }
            let pair = full.encodings[k];
            if bit {
                r.push(pair.1);
            } else {
                r.push(pair.0);
            }
            t = t + 1;
        }
        j = j + 1;
    }
    proof {
        assert(r@ =~= active_of(plaintext@, *full));
    }
    r
}

/// The sum of the active encodings of `plaintext`, each read as a big-endian
/// integer.
pub fn encoding_sum<F: Field>(plaintext: &Vec<u8>, full: &FullEncodings) -> (r: F)
    requires
        full.encodings@.len() == 8 * plaintext@.len(),
    ensures
        r.valid(),
        r == sum_of::<F>(active_of(plaintext@, *full)),
{
    let active = active_encodings(plaintext, full);
    let mut sum = F::zero();
    let mut i: usize = 0;
    proof {
        assert(active@.take(0) =~= Seq::<[u8; 16]>::empty());
    }
    while i < active.len()
        invariant
            i <= active@.len(),
            sum.valid(),
            sum == sum_of::<F>(active@.take(i as int)),
        decreases active@.len() - i,
    {
        let x = F::from_bytes_be(array_to_vec(&active[i]));
        proof {
            assert(active@.take(i + 1).drop_last() =~= active@.take(i as int));
        }
        sum = sum.add(&x);
        i = i + 1;
    }
    proof {
        assert(active@.take(active@.len() as int) =~= active@);
    }
    sum
}

/// The prover's input for the chunk committed to in `c`, with the chunk's
/// encoding sum `sum` and the commitment to it.
pub fn prover_input<F: Copy>(
    c: &PlaintextCommitment<F>,
    sum: F,
    sum_commitment: F,
    sum_salt: F,
) -> (r: ProverInput<F>)
    ensures
        r.plaintext@ == c.plaintext@,
        r.plaintext_salt == c.salt,
        r.encoding_sum == sum,
        r.encoding_sum_salt == sum_salt,
        r.public == (PublicInput {
            id: c.id,
            plaintext_commitment: c.commitment,
            encoding_sum_commitment: sum_commitment,
        }),
{
    ProverInput {
        plaintext: c.plaintext.clone(),
        plaintext_salt: c.salt,
        encoding_sum: sum,
        encoding_sum_salt: sum_salt,
        public: PublicInput {
            id: c.id,
            plaintext_commitment: c.commitment,
            encoding_sum_commitment: sum_commitment,
        },
    }
}

/// `input` is the prover's input for the chunk committed to in `c`, whose
/// full encodings are `e`.
pub open spec fn input_for<F: Field>(
    input: ProverInput<F>,
    c: PlaintextCommitment<F>,
    e: FullEncodings,
) -> bool {
    &&& input.plaintext@ == c.plaintext@
    &&& input.plaintext_salt == c.salt
    &&& input.encoding_sum == sum_of::<F>(active_of(c.plaintext@, e))
    &&& input.public.id == c.id
    &&& input.public.plaintext_commitment == c.commitment
    &&& input.public.encoding_sum_commitment.valid()
    &&& input.encoding_sum_salt.valid()
}

impl<B> Prover<B, Initialized> {
    /// Creates a new prover around the backend `backend`.
    pub fn new<F: Field>(backend: B) -> (r: Self) where B: ProverBackend<F>
        ensures
            r.backend() == backend,
    {
        let chunk_size = backend.chunk_size();
        Prover { backend, chunk_size, state: Initialized }
    }

    /// Creates a commitment to each element of `data_set`. Returns the
    /// committed prover and the `Commit` message to send; fails with
    /// `InvalidInput`, committing to nothing, if a plaintext does not fit in a
    /// chunk.
    pub fn commit<F: Field + Copy>(self, data_set: Vec<CommitmentData>) -> (r: Result<
        (Prover<B, Committed<F>>, Message<F>),
        ProverError,
    >) where B: ProverBackend<F>
        ensures
            r is Err <==> !all_fit(data_set@, self.chunk_size()),
            r is Err ==> r == Err::<(Prover<B, Committed<F>>, Message<F>), _>(
                ProverError::InvalidInput,
            ),
            r matches Ok((p, msg)) ==> {
                &&& p.backend() == self.backend()
                &&& p.chunk_size() == self.chunk_size()
                &&& p.commitments().len() == data_set@.len()
                &&& msg.commit_entries().len() == data_set@.len()
                &&& msg is Commit
                &&& forall|i: int|
                    0 <= i < data_set@.len() ==> {
                        &&& (#[trigger] p.commitments()[i]).id == data_set@[i].id
                        &&& p.commitments()[i].plaintext@ == data_set@[i].plaintext@
                        &&& p.commitments()[i].commitment.valid()
                        &&& p.commitments()[i].salt.valid()
                        &&& msg.commit_entries()[i] == CommitEntry {
                            id: data_set@[i].id,
                            commitment: p.commitments()[i].commitment,
                        }
                    }
            },
    {
        let chunk_size = self.chunk_size;
        let mut i: usize = 0;
        while i < data_set.len()
            invariant
                chunk_size == self.chunk_size(),
                i <= data_set@.len(),
                forall|j: int| 0 <= j < i ==> #[trigger] data_set@[j].plaintext@.len() <= chunk_size,
            decreases data_set@.len() - i,
        {
            if data_set[i].plaintext.len() > chunk_size {
                assert(!all_fit(data_set@, chunk_size as nat));
                return Err(ProverError::InvalidInput);
            }
            i = i + 1;
        }
        let mut commitments: Vec<PlaintextCommitment<F>> = Vec::new();
        let mut entries: Vec<CommitEntry<F>> = Vec::new();
        let mut i: usize = 0;
        while i < data_set.len()
            invariant
                chunk_size == self.chunk_size(),
                all_fit(data_set@, chunk_size as nat),
                i <= data_set@.len(),
                commitments@.len() == i,
                entries@.len() == i,
                forall|j: int|
                    0 <= j < i ==> {
                        &&& (#[trigger] commitments@[j]).id == data_set@[j].id
                        &&& commitments@[j].plaintext@ == data_set@[j].plaintext@
                        &&& commitments@[j].commitment.valid()
                        &&& commitments@[j].salt.valid()
                        &&& entries@[j] == CommitEntry {
                            id: data_set@[j].id,
                            commitment: commitments@[j].commitment,
                        }
                    },
            decreases data_set@.len() - i,
        {
            let id = data_set[i].id;
            let plaintext = data_set[i].plaintext.clone();
            let (commitment, salt) = self.backend.commit_plaintext(plaintext.clone());
            commitments.push(PlaintextCommitment { id, plaintext, commitment, salt });
            entries.push(CommitEntry { id, commitment });
            i = i + 1;
        }
        let next = Prover {
            backend: self.backend,
            chunk_size: self.chunk_size,
            state: Committed { commitments },
        };
        Ok((next, Message::Commit(entries)))
    }
}

impl<B, F: Field + Copy> Prover<B, Committed<F>> {
    /// The ids of the committed chunks, in the order of commitment.
    pub fn ids(&self) -> (r: Vec<u64>)
        ensures
            r@.len() == self.commitments().len(),
            forall|i: int| 0 <= i < r@.len() ==> #[trigger] r@[i] == self.commitments()[i].id,
    {
        let mut r: Vec<u64> = Vec::new();
        let mut i: usize = 0;
        while i < self.state.commitments.len()
            invariant
                i <= self.commitments().len(),
                r@.len() == i,
                forall|j: int| 0 <= j < i ==> #[trigger] r@[j] == self.commitments()[j].id,
            decreases self.commitments().len() - i,
        {
            r.push(self.state.commitments[i].id);
            i = i + 1;
        }
        r
    }

    /// Generates the proofs. Fetches the full encodings of every committed
    /// chunk from `encoding_provider`, then proceeds as `prove_with_encodings`.
    pub fn prove<P: EncodingProvider>(self, encoding_provider: &P) -> (r: Result<
        (Prover<B, ProofGenerated<F>>, Message<F>),
        ProverError,
    >) where B: ProverBackend<F>
        requires
            forall|i: int|
                0 <= i < self.commitments().len() ==> (#[trigger] self.commitments()[i]).salt.valid()
                    && self.commitments()[i].commitment.valid(),
        ensures
            r matches Ok((p, msg)) ==> {
                &&& msg is Proofs
                &&& p.backend() == self.backend()
                &&& p.proven() == self.commitments()
            },
    {
        let ids = self.ids();
        let encodings = encoding_provider.get_by_ids(&ids);
        self.prove_with_encodings(encodings)
    }

    /// The inputs that go to the backend's `prove`: one per committed chunk,
    /// in the order of commitment, each with the chunk's encoding sum and a
    /// fresh commitment to it from the backend.
    pub fn build_inputs(&self, encodings: &Vec<FullEncodings>) -> (r: Vec<ProverInput<F>>) where
        B: ProverBackend<F>,

        requires
            encodings_match(self.commitments(), encodings@),
        ensures
            r@.len() == self.commitments().len(),
            forall|i: int|
                0 <= i < r@.len() ==> input_for(
                    #[trigger] r@[i],
                    self.commitments()[i],
                    encodings@[i],
                ),
    {
        let n = self.state.commitments.len();
        let mut inputs: Vec<ProverInput<F>> = Vec::new();
        let mut i: usize = 0;
        while i < n
            invariant
                n == self.commitments().len(),
                encodings_match(self.commitments(), encodings@),
                i <= n,
                inputs@.len() == i,
                forall|j: int|
                    0 <= j < i ==> input_for(
                        #[trigger] inputs@[j],
                        self.commitments()[j],
                        encodings@[j],
                    ),
            decreases n - i,
        {
            let c = &self.state.commitments[i];
            assert(encodings@[i as int].encodings@.len() == 8 * self.commitments()[i as int].plaintext@.len());
            let sum: F = encoding_sum(&c.plaintext, &encodings[i]);
            let (sum_commitment, sum_salt) = self.backend.commit_encoding_sum(sum);
            inputs.push(prover_input(c, sum, sum_commitment, sum_salt));
            i = i + 1;
        }
        inputs
    }

    /// Generates the proofs from the full encodings of the committed chunks.
    /// Fails with `EncodingUnavailable` where the encodings are missing or
    /// their count differs from that of the commitments, with `InvalidInput`
    /// where the encodings of a chunk do not cover its bits, and else as the
    /// backend decides.
    pub fn prove_with_encodings(self, encodings: Option<Vec<FullEncodings>>) -> (r: Result<
        (Prover<B, ProofGenerated<F>>, Message<F>),
        ProverError,
    >) where B: ProverBackend<F>
        requires
            forall|i: int|
                0 <= i < self.commitments().len() ==> (#[trigger] self.commitments()[i]).salt.valid()
                    && self.commitments()[i].commitment.valid(),
        ensures
            encodings is None ==> r == Err::<(Prover<B, ProofGenerated<F>>, Message<F>), _>(
                ProverError::EncodingUnavailable,
            ),
            encodings matches Some(e) ==> e@.len() != self.commitments().len() ==> r == Err::<
                (Prover<B, ProofGenerated<F>>, Message<F>),
                _,
            >(ProverError::EncodingUnavailable),
            encodings matches Some(e) ==> e@.len() == self.commitments().len() && !encodings_match(
                self.commitments(),
                e@,
            ) ==> r == Err::<(Prover<B, ProofGenerated<F>>, Message<F>), _>(
                ProverError::InvalidInput,
            ),
            r is Ok ==> (encodings matches Some(e) && encodings_match(self.commitments(), e@)),
            r matches Ok((p, msg)) ==> {
                &&& msg is Proofs
                &&& p.backend() == self.backend()
                &&& p.proven() == self.commitments()
            },
    {
        let all = match encodings {
            None => {
                return Err(ProverError::EncodingUnavailable);
            },
            Some(e) => e,
        };
        assert(encodings == Some(all));
        let n = self.state.commitments.len();
        if all.len() != n {
            return Err(ProverError::EncodingUnavailable);
        }
        let mut i: usize = 0;
        while i < n
            invariant
                n == self.commitments().len(),
                all@.len() == n,
                encodings == Some(all),
                i <= n,
                forall|j: int|
                    0 <= j < i ==> #[trigger] all@[j].encodings@.len() == 8
                        * self.commitments()[j].plaintext@.len(),
            decreases n - i,
        {
            let plen = self.state.commitments[i].plaintext.len();
            let elen = all[i].encodings.len();
            if plen > usize::MAX / 8 || elen != 8 * plen {
                assert(!encodings_match(self.commitments(), all@)) by {
                    assert(all@[i as int].encodings@.len() != 8 * self.commitments()[i as int].plaintext@.len());
                }
                return Err(ProverError::InvalidInput);
            }
            i = i + 1;
        }
        let inputs = self.build_inputs(&all);
        let result = self.backend.prove(inputs);
        proof {
            assert(encodings_match(self.commitments(), all@));
        }
        self.finish_proving(result)
    }

    /// Takes what the backend's `prove` returned: on success the prover moves
    /// to `ProofGenerated` with a `Proofs` message holding exactly those
    /// proofs; a backend error is passed on unchanged.
    pub fn finish_proving(self, result: Result<Vec<Proof>, ProverError>) -> (r: Result<
        (Prover<B, ProofGenerated<F>>, Message<F>),
        ProverError,
    >)
        ensures
            result matches Err(e) ==> r == Err::<(Prover<B, ProofGenerated<F>>, Message<F>), _>(e),
            result matches Ok(proofs) ==> (r matches Ok((p, msg)) && msg == Message::<F>::Proofs(
                proofs,
            ) && p.backend() == self.backend() && p.proven() == self.commitments()),
    {
        match result {
            Ok(proofs) => {
                let next = Prover {
                    backend: self.backend,
                    chunk_size: self.chunk_size,
                    state: ProofGenerated { commitments: self.state.commitments },
                };
                Ok((next, Message::Proofs(proofs)))
            },
            Err(e) => Err(e),
        }
    }
}

} // verus!
