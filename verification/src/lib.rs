//! Transcripts for public-coin arguments.
//!
//! A [`Transcript`] stands in for the verifier of an interactive protocol:
//! the prover's messages are committed to it, and the verifier's challenges
//! are drawn from it. Every call is framed by a label and a length, on top of
//! a duplex sponge ([`strobe::Strobe128`]) whose behaviour is stated over the
//! mathematical state in [`duplex`].

use crate::duplex::Duplex;
use crate::strobe::Strobe128;
use byteorder::{ByteOrder, LittleEndian};
use vstd::prelude::*;

pub mod duplex;
pub mod history;
pub mod permutation;
pub mod strobe;

verus! {

/// One more than the largest length that fits the four-byte length field.
pub const LENGTH_LIMIT: u64 = 0x1_0000_0000;

/// The four bytes that stand for the length `n` in a frame: `n` written in
/// base 256, least significant digit first.
pub open spec fn length_prefix(n: nat) -> Seq<u8> {
    seq![
        (n % 256) as u8,
        (n / 0x100 % 256) as u8,
        (n / 0x1_0000 % 256) as u8,
        (n / 0x100_0000 % 256) as u8,
    ]
}

/// Lengths that fit the length field have different prefixes, so a frame
/// tells the length of what it frames.
pub proof fn lemma_length_prefix_injective(n: nat, m: nat)
    requires
        n < LENGTH_LIMIT,
        m < LENGTH_LIMIT,
        length_prefix(n) == length_prefix(m),
    ensures
        n == m,
{
    let p = length_prefix(n);
    let q = length_prefix(m);
    assert(p[0] == q[0] && p[1] == q[1] && p[2] == q[2] && p[3] == q[3]);
    assert(n == n % 256 + (n / 0x100 % 256) * 0x100 + (n / 0x1_0000 % 256) * 0x1_0000 + (n
        / 0x100_0000 % 256) * 0x100_0000);
    assert(m == m % 256 + (m / 0x100 % 256) * 0x100 + (m / 0x1_0000 % 256) * 0x1_0000 + (m
        / 0x100_0000 % 256) * 0x100_0000);
}

/// Calls `byteorder::LittleEndian::write_u32` on a buffer of exactly four
/// bytes. The contract claims that the buffer then holds `n` in little-endian
/// order, which is what the crate documents and what its source does by
/// copying `n.to_le_bytes()`. Not proved here.
#[verifier::external_body]
fn write_u32_le(buf: &mut [u8; 4], n: u32)
    ensures
        final(buf)@ == length_prefix(n as nat),
{
    LittleEndian::write_u32(buf, n)
}

/// The one way in which a call on a transcript is refused: the length of the
/// message, or of the challenge asked for, does not fit the four-byte length
/// field of its frame.
#[derive(Clone, Copy, Debug, PartialEq, Eq)]
pub struct FramingOverflow;

/// Encodes a length as the four-byte little-endian field of a frame, or
/// refuses it if it does not fit.
pub fn try_encode_usize(x: usize) -> (field: Result<[u8; 4], FramingOverflow>)
    ensures
        field is Ok <==> x < LENGTH_LIMIT,
        field matches Ok(buf) ==> buf@ == length_prefix(x as nat),
{
    if x as u64 >= LENGTH_LIMIT {
        Err(FramingOverflow)
    } else {
        Ok(encode_usize(x))
    }
}

/// Encodes a length as the four-byte little-endian field of a frame.
pub fn encode_usize(x: usize) -> (buf: [u8; 4])
    requires
        x < LENGTH_LIMIT,
    ensures
        buf@ == length_prefix(x as nat),
{
    let mut buf: [u8; 4] = [0u8; 4];
    write_u32_le(&mut buf, x as u32);
    buf
}

impl Duplex {
    /// The state after `message` is committed under `label`: the label and
    /// the length of the message form one run of metadata, the message a run
    /// of data.
    pub open spec fn commit(self, label: Seq<u8>, message: Seq<u8>) -> Duplex {
        self.meta_ad(label, false).meta_ad(length_prefix(message.len()), true).ad(message, false)
    }

    /// The state after a challenge of `n` bytes is drawn under `label`: the
    /// label and the length `n` form one run of metadata, then `n` bytes are
    /// squeezed.
    pub open spec fn challenge(self, label: Seq<u8>, n: nat) -> Duplex {
        self.meta_ad(label, false).meta_ad(length_prefix(n), true).prf(n, false)
    }

    /// The `n` challenge bytes that are drawn under `label`.
    pub open spec fn challenge_bytes(self, label: Seq<u8>, n: nat) -> Seq<u8> {
        self.meta_ad(label, false).meta_ad(length_prefix(n), true).prf_output(n, false)
    }
}

/// A transcript of a public-coin argument.
///
/// The prover's messages are added to the transcript using `commit`, and the
/// verifier's challenges are computed using `challenge`. A protocol takes a
/// `&mut Transcript` from its caller, who has started it with a label of the
/// application: so every proof is separated from those of other applications,
/// and protocols that run on one transcript compose.
pub struct Transcript {
    strobe: Strobe128,
}

impl View for Transcript {
    type V = Duplex;

    closed spec fn view(&self) -> Duplex {
        self.strobe@
    }
}

impl Transcript {
    /// Initializes a new transcript with the supplied `label`, which is used
    /// as a domain separator.
    pub fn new(label: &[u8]) -> (transcript: Transcript)
        ensures
            transcript@ == Duplex::init(label@),
            transcript@.wf(),
    {
        Transcript { strobe: Strobe128::new(label) }
    }

    /// Commits a prover's `message` to the transcript.
    ///
    /// The `label` parameter is metadata about the message, and is also
    /// committed to the transcript.
    pub fn commit(&mut self, label: &[u8], message: &[u8])
        requires
            message@.len() < LENGTH_LIMIT,
        ensures
            final(self)@ == old(self)@.commit(label@, message@),
            final(self)@.wf(),
    {
        let data_len: [u8; 4] = encode_usize(message.len());
        self.strobe.meta_ad(label, false);
        self.strobe.meta_ad(&data_len, true);
        self.strobe.ad(message, false);
    }

    /// Fills the supplied buffer with the verifier's challenge bytes.
    ///
    /// The `label` parameter is metadata about the challenge, and is also
    /// committed to the transcript.
    pub fn challenge(&mut self, label: &[u8], challenge_bytes: &mut [u8])
        requires
            old(challenge_bytes)@.len() < LENGTH_LIMIT,
        ensures
            final(self)@ == old(self)@.challenge(label@, old(challenge_bytes)@.len()),
            final(challenge_bytes)@ == old(self)@.challenge_bytes(
                label@,
                old(challenge_bytes)@.len(),
            ),
            final(self)@.wf(),
    {
        let data_len: [u8; 4] = encode_usize(challenge_bytes.len());
        self.strobe.meta_ad(label, false);
        self.strobe.meta_ad(&data_len, true);
        self.strobe.prf(challenge_bytes, false);
    }

    /// Commits `message` like `commit` if its length fits the length field.
    /// If it does not, the call is refused before anything is touched.
    pub fn try_commit(&mut self, label: &[u8], message: &[u8]) -> (done: Result<
        (),
        FramingOverflow,
    >)
        ensures
            done is Ok <==> message@.len() < LENGTH_LIMIT,
            done is Ok ==> final(self)@ == old(self)@.commit(label@, message@),
            done is Err ==> final(self)@ == old(self)@,
            final(self)@.wf(),
    {
        match try_encode_usize(message.len()) {
            Ok(data_len) => {
                self.strobe.meta_ad(label, false);
                self.strobe.meta_ad(&data_len, true);
                self.strobe.ad(message, false);
                Ok(())
            },
            Err(refused) => {
                proof {
                    use_type_invariant(&self.strobe);
                }
                Err(refused)
            },
        }
    }

    /// Draws a challenge like `challenge` if the length of the buffer fits
    /// the length field. If it does not, the call is refused before anything
    /// is touched: the transcript and the buffer stay as they were.
    pub fn try_challenge(&mut self, label: &[u8], challenge_bytes: &mut [u8]) -> (done: Result<
        (),
        FramingOverflow,
    >)
        ensures
            done is Ok <==> old(challenge_bytes)@.len() < LENGTH_LIMIT,
            done is Ok ==> final(self)@ == old(self)@.challenge(
                label@,
                old(challenge_bytes)@.len(),
            ) && final(challenge_bytes)@ == old(self)@.challenge_bytes(
                label@,
                old(challenge_bytes)@.len(),
            ),
            done is Err ==> final(self)@ == old(self)@ && final(challenge_bytes)@ == old(
                challenge_bytes,
            )@,
            final(self)@.wf(),
    {
        match try_encode_usize(challenge_bytes.len()) {
            Ok(data_len) => {
                self.strobe.meta_ad(label, false);
                self.strobe.meta_ad(&data_len, true);
                self.strobe.prf(challenge_bytes, false);
                Ok(())
            },
            Err(refused) => {
                proof {
                    use_type_invariant(&self.strobe);
                }
                Err(refused)
            },
        }
    }
}

impl Clone for Transcript {
    /// An independent copy of the transcript: what is done to the one is not
    /// seen by the other.
    fn clone(&self) -> (copy: Transcript)
        ensures
            copy@ == self@,
    {
        Transcript { strobe: self.strobe.clone() }
    }
}

} // verus!
