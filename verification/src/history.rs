//! Transcripts as functions of their history.
//!
//! A transcript holds nothing but the state of its sponge, and every call
//! makes a new state of the old one and its arguments. So what a transcript
//! answers is settled by the label it was started with and the calls it has
//! taken since, in their order. This module writes that history down and
//! states what follows from it.

use crate::duplex::{lemma_continuation, lemma_operations_wf, Duplex};
use crate::{lemma_length_prefix_injective, length_prefix, LENGTH_LIMIT};
use vstd::prelude::*;

verus! {

/// One call on a transcript, with its arguments.
pub enum Call {
    /// `message` is committed under `label`.
    Commit { label: Seq<u8>, message: Seq<u8> },
    /// A challenge of `len` bytes is drawn under `label`.
    Challenge { label: Seq<u8>, len: nat },
}

impl Duplex {
    /// The state after one call.
    pub open spec fn after(self, call: Call) -> Duplex {
        match call {
            Call::Commit { label, message } => self.commit(label, message),
            Call::Challenge { label, len } => self.challenge(label, len),
        }
    }

    /// The state after the calls of `calls`, in order.
    pub open spec fn after_all(self, calls: Seq<Call>) -> Duplex
        decreases calls.len(),
    {
        if calls.len() == 0 {
            self
        } else {
            self.after_all(calls.drop_last()).after(calls.last())
        }
    }

    /// The challenges that the calls of `calls` draw, in order: one entry for
    /// each call that is a challenge.
    pub open spec fn challenges(self, calls: Seq<Call>) -> Seq<Seq<u8>>
        decreases calls.len(),
    {
        if calls.len() == 0 {
            Seq::empty()
        } else {
            let earlier = self.challenges(calls.drop_last());
            match calls.last() {
                Call::Commit { .. } => earlier,
                Call::Challenge { label, len } => earlier.push(
                    self.after_all(calls.drop_last()).challenge_bytes(label, len),
                ),
            }
        }
    }
}

/// Challenges are a function of the history alone: two transcripts that were
/// started with the same label and have taken the same calls in the same
/// order hold the same state, have drawn the same challenges, and will answer
/// any further call alike.
pub proof fn lemma_determinism(
    label_a: Seq<u8>,
    calls_a: Seq<Call>,
    label_b: Seq<u8>,
    calls_b: Seq<Call>,
    next: Call,
)
    requires
        label_a == label_b,
        calls_a == calls_b,
    ensures
        Duplex::init(label_a).after_all(calls_a) == Duplex::init(label_b).after_all(calls_b),
        Duplex::init(label_a).challenges(calls_a) == Duplex::init(label_b).challenges(calls_b),
        Duplex::init(label_a).challenges(calls_a.push(next)) == Duplex::init(label_b).challenges(
            calls_b.push(next),
        ),
{
}

/// A history keeps a transcript well formed.
pub proof fn lemma_history_wf(s: Duplex, calls: Seq<Call>)
    requires
        s.wf(),
    ensures
        s.after_all(calls).wf(),
    decreases calls.len(),
{
    if calls.len() > 0 {
        lemma_history_wf(s, calls.drop_last());
        lemma_call_wf(s.after_all(calls.drop_last()), calls.last());
    }
}

/// One call keeps a transcript well formed, and a challenge has the length
/// that was asked for.
pub proof fn lemma_call_wf(s: Duplex, call: Call)
    requires
        s.wf(),
    ensures
        s.after(call).wf(),
        call matches Call::Challenge { label, len } ==> s.challenge_bytes(label, len).len() == len,
{
    match call {
        Call::Commit { label, message } => {
            lemma_operations_wf(s, label, 0, false);
            let t = s.meta_ad(label, false);
            lemma_operations_wf(t, length_prefix(message.len()), 0, true);
            lemma_operations_wf(
                t.meta_ad(length_prefix(message.len()), true),
                message,
                0,
                false,
            );
        },
        Call::Challenge { label, len } => {
            lemma_operations_wf(s, label, 0, false);
            let t = s.meta_ad(label, false);
            lemma_operations_wf(t, length_prefix(len), 0, true);
            lemma_operations_wf(t.meta_ad(length_prefix(len), true), Seq::empty(), len, false);
        },
    }
}

/// A history may be cut anywhere: the calls of `first` and then those of
/// `then` leave the state, and draw the challenges, that the second part
/// leaves and draws when it starts where the first part ended. So two copies
/// of a transcript agree on their common past, and each goes on from it on
/// its own.
pub proof fn lemma_history_concat(s: Duplex, first: Seq<Call>, then: Seq<Call>)
    ensures
        s.after_all(first + then) == s.after_all(first).after_all(then),
        s.challenges(first + then) == s.challenges(first) + s.after_all(first).challenges(then),
    decreases then.len(),
{
    if then.len() == 0 {
        assert(first + then =~= first);
        assert(s.challenges(first) + Seq::<Seq<u8>>::empty() =~= s.challenges(first));
    } else {
        assert((first + then).drop_last() =~= first + then.drop_last());
        assert((first + then).last() == then.last());
        lemma_history_concat(s, first, then.drop_last());
        let mid = s.after_all(first);
        match then.last() {
            Call::Commit { .. } => {},
            Call::Challenge { label, len } => {
                let c = mid.after_all(then.drop_last()).challenge_bytes(label, len);
                assert((s.challenges(first) + mid.challenges(then.drop_last())).push(c)
                    =~= s.challenges(first) + mid.challenges(then.drop_last()).push(c));
            },
        }
    }
}

/// The label and the length of a call form one run of metadata: a commit is
/// the absorbing of the label followed by the length field, as metadata, and
/// then of the message, as data; a challenge is the same run of metadata and
/// then the squeezing.
pub proof fn lemma_frame_is_one_run(s: Duplex, label: Seq<u8>, message: Seq<u8>, n: nat)
    ensures
        s.commit(label, message) == s.meta_ad(label + length_prefix(message.len()), false).ad(
            message,
            false,
        ),
        s.challenge(label, n) == s.meta_ad(label + length_prefix(n), false).prf(n, false),
        s.challenge_bytes(label, n) == s.meta_ad(label + length_prefix(n), false).prf_output(
            n,
            false,
        ),
{
    lemma_continuation(s, label, length_prefix(message.len()), false);
    lemma_continuation(s, label, length_prefix(n), false);
}

/// The metadata of a frame tells its label and its length apart: no two
/// pairs of a label and a length that fits the length field give the same
/// run of metadata, however the bytes are shifted between the two.
pub proof fn lemma_frame_injective(label_a: Seq<u8>, n_a: nat, label_b: Seq<u8>, n_b: nat)
    requires
        n_a < LENGTH_LIMIT,
        n_b < LENGTH_LIMIT,
        label_a + length_prefix(n_a) == label_b + length_prefix(n_b),
    ensures
        label_a == label_b,
        n_a == n_b,
{
    let fa = label_a + length_prefix(n_a);
    let fb = label_b + length_prefix(n_b);
    assert(fa.len() == label_a.len() + 4);
    assert(fb.len() == label_b.len() + 4);
    assert(label_a =~= fa.subrange(0, label_a.len() as int));
    assert(label_b =~= fb.subrange(0, label_b.len() as int));
    assert(length_prefix(n_a) =~= fa.subrange(label_a.len() as int, fa.len() as int));
    assert(length_prefix(n_b) =~= fb.subrange(label_b.len() as int, fb.len() as int));
    lemma_length_prefix_injective(n_a, n_b);
}

} // verus!
