//! The transcript against a full implementation of the sponge protocol, on
//! the few operations that the transcript uses.

use merlin::{encode_usize, Transcript};
use strobe_rs::{SecParam, Strobe};

struct TestTranscript {
    state: Strobe,
}

impl TestTranscript {
    /// Strobe init; meta-AD(label)
    pub fn new(label: &[u8]) -> TestTranscript {
        TestTranscript {
            state: Strobe::new(label, SecParam::B128),
        }
    }

    /// Strobe op: meta-AD(label || len(message)); AD(message)
    pub fn commit(&mut self, label: &[u8], message: &[u8]) {
        let mut metadata: Vec<u8> = Vec::with_capacity(label.len() + 4);
        metadata.extend_from_slice(label);
        metadata.extend_from_slice(&encode_usize(message.len()));

        self.state.meta_ad(&metadata, false);
        self.state.ad(message, false);
    }

    /// Strobe op: meta-AD(label || len(challenge_bytes)); PRF into challenge_bytes
    pub fn challenge(&mut self, label: &[u8], challenge_bytes: &mut [u8]) {
        let prf_len = challenge_bytes.len();

        let mut metadata: Vec<u8> = Vec::with_capacity(label.len() + 4);
        metadata.extend_from_slice(label);
        metadata.extend_from_slice(&encode_usize(prf_len));

        self.state.meta_ad(&metadata, false);
        self.state.prf(challenge_bytes, false);
    }
}

/// Test a simple protocol with one message and one challenge
#[test]
fn equivalence_simple() {
    let mut real_transcript = Transcript::new(b"test protocol");
    let mut test_transcript = TestTranscript::new(b"test protocol");

    real_transcript.commit(b"some label", b"some data");
    test_transcript.commit(b"some label", b"some data");

    let mut real_challenge = [0u8; 32];
    let mut test_challenge = [0u8; 32];

    real_transcript.challenge(b"challenge", &mut real_challenge);
    test_transcript.challenge(b"challenge", &mut test_challenge);

    assert_eq!(real_challenge, test_challenge);
}

/// Test a complex protocol with multiple messages and challenges,
/// with messages long enough to wrap around the sponge state, and
/// with multiple rounds of messages and challenges.
#[test]
fn equivalence_complex() {
    let mut real_transcript = Transcript::new(b"test protocol");
    let mut test_transcript = TestTranscript::new(b"test protocol");

    let data = vec![99; 1024];

    real_transcript.commit(b"step1", b"some data");
    test_transcript.commit(b"step1", b"some data");

    let mut real_challenge = [0u8; 32];
    let mut test_challenge = [0u8; 32];

    for _ in 0..32 {
        real_transcript.challenge(b"challenge", &mut real_challenge);
        test_transcript.challenge(b"challenge", &mut test_challenge);

        assert_eq!(real_challenge, test_challenge);

        real_transcript.commit(b"bigdata", &data);
        test_transcript.commit(b"bigdata", &data);

        real_transcript.commit(b"challengedata", &real_challenge);
        test_transcript.commit(b"challengedata", &test_challenge);
    }
}
