use authdecode::backend::{Field, Proof, ProverBackend, ProverError, ProverInput};
use authdecode::field::Bn256F;
use authdecode::prover::{
    active_encodings, encoding_sum, prover_input, CommitmentData, EncodingProvider, FullEncodings,
    Message, PlaintextCommitment, Prover,
};
use authdecode::tee::{initiate_tee_notary, Error};

struct MockBackend {
    chunk_size: usize,
    fail: bool,
}

impl ProverBackend<Bn256F> for MockBackend {
    fn commit_plaintext(&self, plaintext: Vec<u8>) -> (Bn256F, Bn256F) {
        let mut padded = vec![0u8; self.chunk_size - plaintext.len()];
        padded.extend(plaintext);
        (Bn256F::from_bytes_be(padded), Bn256F::from_u64(7))
    }

    fn commit_encoding_sum(&self, encoding_sum: Bn256F) -> (Bn256F, Bn256F) {
        (encoding_sum.add(&Bn256F::one()), Bn256F::from_u64(9))
    }

    fn prove(&self, inputs: Vec<ProverInput<Bn256F>>) -> Result<Vec<Proof>, ProverError> {
        if self.fail {
            return Err(ProverError::BackendFailure);
        }
        Ok(inputs
            .iter()
            .map(|i| Proof { bytes: i.encoding_sum.bytes.to_vec() })
            .collect())
    }

    fn chunk_size(&self) -> usize {
        self.chunk_size
    }
}

struct MockProvider {
    available: bool,
    bits_per_chunk: usize,
}

impl EncodingProvider for MockProvider {
    fn get_by_ids(&self, ids: &Vec<u64>) -> Option<Vec<FullEncodings>> {
        if !self.available {
            return None;
        }
        Some(
            ids.iter()
                .map(|_| {
                    let mut zero = [0u8; 16];
                    zero[15] = 1;
                    let mut one = [0u8; 16];
                    one[15] = 10;
                    FullEncodings { encodings: vec![(zero, one); self.bits_per_chunk] }
                })
                .collect(),
        )
    }
}

fn data() -> Vec<CommitmentData> {
    vec![
        CommitmentData { id: 3, plaintext: vec![0b1000_0001] },
        CommitmentData { id: 8, plaintext: vec![0xff, 0x00] },
    ]
}

#[test]
fn commit_sends_one_commitment_per_chunk_in_order() {
    let prover = Prover::new(MockBackend { chunk_size: 2, fail: false });
    let (_committed, msg) = prover.commit::<Bn256F>(data()).unwrap();
    match msg {
        Message::Commit(entries) => {
            assert_eq!(entries.len(), 2);
            assert_eq!(entries[0].id, 3);
            assert_eq!(entries[1].id, 8);
            assert_eq!(entries[0].commitment, Bn256F::from_u64(0b1000_0001));
            assert_eq!(entries[1].commitment, Bn256F::from_u64(0xff00));
        }
        Message::Proofs(_) => panic!("expected a Commit message"),
    }
}

#[test]
fn commit_rejects_an_oversized_chunk() {
    let prover = Prover::new(MockBackend { chunk_size: 1, fail: false });
    let r = prover.commit::<Bn256F>(data());
    assert!(matches!(r, Err(ProverError::InvalidInput)));
}

#[test]
fn prove_after_commit_sends_the_backend_proofs() {
    let prover = Prover::new(MockBackend { chunk_size: 2, fail: false });
    let (committed, _) = prover.commit::<Bn256F>(data()).unwrap();
    let provider = MockProvider { available: true, bits_per_chunk: 8 };
    // The second chunk has 16 bits, so the encodings do not cover it.
    let r = committed.prove(&provider);
    assert!(matches!(r, Err(ProverError::InvalidInput)));

    let prover = Prover::new(MockBackend { chunk_size: 2, fail: false });
    let one_chunk = vec![CommitmentData { id: 5, plaintext: vec![0b1000_0001] }];
    let (committed, _) = prover.commit::<Bn256F>(one_chunk).unwrap();
    let (_done, msg) = committed.prove(&provider).unwrap();
    // Active encodings: 10 + 1 * 6 + 10 = 26.
    match msg {
        Message::Proofs(proofs) => {
            assert_eq!(proofs.len(), 1);
            assert_eq!(proofs[0].bytes, Bn256F::from_u64(26).bytes.to_vec());
        }
        Message::Commit(_) => panic!("expected a Proofs message"),
    }
}

#[test]
fn prove_fails_without_encodings() {
    let prover = Prover::new(MockBackend { chunk_size: 2, fail: false });
    let (committed, _) = prover.commit::<Bn256F>(data()).unwrap();
    let provider = MockProvider { available: false, bits_per_chunk: 8 };
    assert!(matches!(committed.prove(&provider), Err(ProverError::EncodingUnavailable)));
}

#[test]
fn prove_with_a_wrong_count_of_encodings() {
    let prover = Prover::new(MockBackend { chunk_size: 2, fail: false });
    let (committed, _) = prover.commit::<Bn256F>(data()).unwrap();
    let r = committed.prove_with_encodings(Some(vec![]));
    assert!(matches!(r, Err(ProverError::EncodingUnavailable)));
}

#[test]
fn prove_passes_a_backend_failure_on() {
    let prover = Prover::new(MockBackend { chunk_size: 2, fail: true });
    let one_chunk = vec![CommitmentData { id: 5, plaintext: vec![1] }];
    let (committed, _) = prover.commit::<Bn256F>(one_chunk).unwrap();
    let provider = MockProvider { available: true, bits_per_chunk: 8 };
    assert!(matches!(committed.prove(&provider), Err(ProverError::BackendFailure)));
}

#[test]
fn finish_proving_wraps_the_proofs() {
    let prover = Prover::new(MockBackend { chunk_size: 2, fail: false });
    let (committed, _) = prover.commit::<Bn256F>(vec![]).unwrap();
    let proofs = vec![Proof { bytes: vec![1, 2, 3] }];
    let (_done, msg) = committed.finish_proving(Ok(proofs.clone())).unwrap();
    assert_eq!(msg, Message::Proofs(proofs));
}

#[test]
fn tee_bootstrap_succeeds() {
    assert!(initiate_tee_notary().is_ok());
    let e = Error::InitializationError("no device".to_string());
    assert_eq!(e.message(), "TEE initialization error: no device");
}

#[test]
fn active_encodings_and_their_sum() {
    let mut full = Vec::new();
    for i in 0..8u8 {
        let mut zero = [0u8; 16];
        zero[15] = i;
        let mut one = [0u8; 16];
        one[15] = 100 + i;
        full.push((zero, one));
    }
    let full = FullEncodings { encodings: full };
    let plaintext = vec![0b1010_0000u8];
    let active = active_encodings(&plaintext, &full);
    assert_eq!(active[0][15], 100);
    assert_eq!(active[1][15], 1);
    assert_eq!(active[2][15], 102);
    assert_eq!(active[7][15], 7);
    // 100 + 1 + 102 + 3 + 4 + 5 + 6 + 7
    let sum: Bn256F = encoding_sum(&plaintext, &full);
    assert_eq!(sum, Bn256F::from_u64(228));
}

#[test]
fn prover_input_carries_the_commitment() {
    let c = PlaintextCommitment {
        id: 4,
        plaintext: vec![1, 2],
        commitment: Bn256F::from_u64(11),
        salt: Bn256F::from_u64(12),
    };
    let input = prover_input(&c, Bn256F::from_u64(13), Bn256F::from_u64(14), Bn256F::from_u64(15));
    assert_eq!(input.plaintext, vec![1, 2]);
    assert_eq!(input.plaintext_salt, Bn256F::from_u64(12));
    assert_eq!(input.encoding_sum, Bn256F::from_u64(13));
    assert_eq!(input.encoding_sum_salt, Bn256F::from_u64(15));
    assert_eq!(input.public.id, 4);
    assert_eq!(input.public.plaintext_commitment, Bn256F::from_u64(11));
    assert_eq!(input.public.encoding_sum_commitment, Bn256F::from_u64(14));
}
