//! The duplex sponge as a mathematical object.
//!
//! A [`Duplex`] is the whole state of the engine: 200 bytes, a cursor into the
//! rate region, the place where the current run began, and the marker of the
//! run in progress. The functions on it say what each operation of the engine
//! makes of a state, byte by byte; the proof functions below them state what
//! follows for whole calls.

use crate::permutation::{permuted, STATE_BYTES};
use vstd::prelude::*;

verus! {

/// Number of state bytes that input and output may touch between two runs of
/// the permutation. The two bytes after them take the padding, and the 32
/// bytes after those, the capacity, are only ever changed by the permutation.
pub const STROBE_R: u8 = 166;

/// First byte of the capacity region.
pub const CAPACITY_START: usize = 168;

/// Flag of an operation that uses cipher output.
pub const FLAG_C: u8 = 4;

/// Flag that is reserved for keyed operations.
pub const FLAG_K: u8 = 32;

/// Frame marker of a run that absorbs metadata.
pub const OP_META_AD: u8 = 0x12;

/// Frame marker of a run that absorbs data.
pub const OP_AD: u8 = 0x02;

/// Frame marker of a run that squeezes output.
pub const OP_PRF: u8 = 0x07;

/// Whether a run with marker `flags` must start on a freshly permuted state.
pub open spec fn forces_permutation(flags: u8) -> bool {
    flags & (FLAG_C | FLAG_K) != 0
}

/// What the state starts with before the first permutation: the parameters
/// of the construction, then its version string, `STROBEv1.0.2`, in ASCII.
pub const PREAMBLE: [u8; 18] = [
    1, 168, 1, 0, 1, 96,
    83, 84, 82, 79, 66, 69, 118, 49, 46, 48, 46, 50,
];

/// The state before the first permutation: the preamble, then zeros.
pub open spec fn initial_block() -> Seq<u8> {
    PREAMBLE@ + Seq::new(182, |i: int| 0u8)
}

/// The state of a duplex sponge.
#[verifier::ext_equal]
pub struct Duplex {
    /// The 200 bytes that the permutation works on.
    pub state: Seq<u8>,
    /// Where the next byte is written or read.
    pub pos: int,
    /// One more than the cursor at the start of the current run, or 0 when
    /// the permutation has run since.
    pub pos_begin: int,
    /// Marker of the run that was started last.
    pub cur_flags: u8,
}

impl Duplex {
    /// The state has its full width, and the cursor lies in the rate region.
    pub open spec fn wf(self) -> bool {
        &&& self.state.len() == STATE_BYTES
        &&& 0 <= self.pos < STROBE_R
        &&& 0 <= self.pos_begin <= STROBE_R
    }

    /// The part of the state that no operation writes to directly.
    pub open spec fn capacity(self) -> Seq<u8> {
        self.state.subrange(CAPACITY_START as int, STATE_BYTES as int)
    }

    /// The byte under the cursor.
    pub open spec fn peek(self) -> u8 {
        self.state[self.pos]
    }

    /// `byte` is xored into the state at `at`.
    pub open spec fn mix(self, at: int, byte: u8) -> Duplex {
        Duplex { state: self.state.update(at, self.state[at] ^ byte), ..self }
    }

    /// The byte at `at` is overwritten with zero.
    pub open spec fn blank(self, at: int) -> Duplex {
        Duplex { state: self.state.update(at, 0u8), ..self }
    }

    /// Every byte of the state is overwritten with zero.
    pub open spec fn erased(self) -> Duplex {
        Duplex { state: Seq::new(STATE_BYTES as nat, |i: int| 0u8), ..self }
    }

    /// The state with the padding of the current block in place: the start of
    /// the run at the cursor, then the two padding marks.
    pub open spec fn padded(self) -> Duplex {
        self.mix(self.pos, self.pos_begin as u8).mix(self.pos + 1, 0x04u8).mix(
            STROBE_R + 1,
            0x80u8,
        )
    }

    /// The block is padded and permuted, and the cursor goes back to zero.
    pub open spec fn run_f(self) -> Duplex {
        Duplex {
            state: permuted(self.padded().state),
            pos: 0,
            pos_begin: 0,
            cur_flags: self.cur_flags,
        }
    }

    /// The cursor moves on by one byte; at the end of the rate region the
    /// permutation runs.
    pub open spec fn step(self) -> Duplex {
        let moved = Duplex { pos: self.pos + 1, ..self };
        if moved.pos == STROBE_R {
            moved.run_f()
        } else {
            moved
        }
    }

    /// One byte of input is absorbed.
    pub open spec fn absorb_byte(self, byte: u8) -> Duplex {
        self.mix(self.pos, byte).step()
    }

    /// The bytes of `data` are absorbed in order.
    pub open spec fn absorb(self, data: Seq<u8>) -> Duplex
        decreases data.len(),
    {
        if data.len() == 0 {
            self
        } else {
            self.absorb(data.drop_last()).absorb_byte(data.last())
        }
    }

    /// One byte of output has been taken: its place is blanked.
    pub open spec fn squeeze_byte(self) -> Duplex {
        self.blank(self.pos).step()
    }

    /// The state after `n` bytes of output have been taken.
    pub open spec fn squeeze(self, n: nat) -> Duplex
        decreases n,
    {
        if n == 0 {
            self
        } else {
            self.squeeze((n - 1) as nat).squeeze_byte()
        }
    }

    /// The first `n` bytes of output: byte `i` is the one under the cursor
    /// once `i` bytes have been taken.
    pub open spec fn squeezed(self, n: nat) -> Seq<u8> {
        Seq::new(n, |i: int| self.squeeze(i as nat).peek())
    }

    /// A run with marker `flags` begins, unless `more` asks to go on with the
    /// run in progress. The frame is the old start of run and the marker,
    /// absorbed like input; a run that squeezes then has the permutation run
    /// unless the frame just filled the block.
    pub open spec fn begin_op(self, flags: u8, more: bool) -> Duplex {
        if more {
            self
        } else {
            let framed = Duplex {
                pos_begin: self.pos + 1,
                cur_flags: flags,
                ..self
            }.absorb_byte(self.pos_begin as u8).absorb_byte(flags);
            if forces_permutation(flags) && framed.pos != 0 {
                framed.run_f()
            } else {
                framed
            }
        }
    }

    /// The state after one call that absorbs `data` in a run with marker
    /// `flags`.
    pub open spec fn absorb_run(self, flags: u8, data: Seq<u8>, more: bool) -> Duplex {
        self.begin_op(flags, more).absorb(data)
    }

    /// The state after `data` is absorbed as metadata.
    pub open spec fn meta_ad(self, data: Seq<u8>, more: bool) -> Duplex {
        self.absorb_run(OP_META_AD, data, more)
    }

    /// The state after `data` is absorbed as data.
    pub open spec fn ad(self, data: Seq<u8>, more: bool) -> Duplex {
        self.absorb_run(OP_AD, data, more)
    }

    /// The state after `n` bytes of output are squeezed.
    pub open spec fn prf(self, n: nat, more: bool) -> Duplex {
        self.begin_op(OP_PRF, more).squeeze(n)
    }

    /// The `n` bytes of output that are squeezed.
    pub open spec fn prf_output(self, n: nat, more: bool) -> Seq<u8> {
        self.begin_op(OP_PRF, more).squeezed(n)
    }

    /// The state of a fresh engine for the protocol `label`: the initial
    /// block permuted, then the label absorbed as metadata.
    pub open spec fn init(label: Seq<u8>) -> Duplex {
        Duplex { state: permuted(initial_block()), pos: 0, pos_begin: 0, cur_flags: 0 }.meta_ad(
            label,
            false,
        )
    }

    /// The state with `data` xored in from the cursor on and the cursor moved
    /// past it, as long as that stays inside the block.
    pub open spec fn filled(self, data: Seq<u8>) -> Duplex {
        Duplex {
            state: Seq::new(
                self.state.len(),
                |i: int|
                    if self.pos <= i < self.pos + data.len() {
                        self.state[i] ^ data[i - self.pos]
                    } else {
                        self.state[i]
                    },
            ),
            pos: self.pos + data.len(),
            ..self
        }
    }

    /// The state with the `n` bytes from the cursor on blanked and the cursor
    /// moved past them, as long as that stays inside the block.
    pub open spec fn drained(self, n: nat) -> Duplex {
        Duplex {
            state: Seq::new(
                self.state.len(),
                |i: int|
                    if self.pos <= i < self.pos + n {
                        0u8
                    } else {
                        self.state[i]
                    },
            ),
            pos: self.pos + n,
            ..self
        }
    }

    /// The state after the chunks are absorbed by one call each under the
    /// marker `flags`: the first call starts the run, the others go on with it.
    pub open spec fn absorb_chunked(self, flags: u8, chunks: Seq<Seq<u8>>) -> Duplex
        decreases chunks.len(),
    {
        if chunks.len() == 0 {
            self
        } else if chunks.len() == 1 {
            self.absorb_run(flags, chunks[0], false)
        } else {
            self.absorb_chunked(flags, chunks.drop_last()).absorb_run(flags, chunks.last(), true)
        }
    }
}

/// The state a step leaves is well formed, whatever byte was written at the
/// cursor before it.
pub proof fn lemma_step_wf(s: Duplex)
    requires
        s.wf(),
    ensures
        s.step().wf(),
        s.step().cur_flags == s.cur_flags,
        s.step().pos == (s.pos + 1) % (STROBE_R as int),
{
}

/// Absorbing keeps a state well formed and moves the cursor by the number of
/// bytes, modulo the rate.
pub proof fn lemma_absorb_wf(s: Duplex, data: Seq<u8>)
    requires
        s.wf(),
    ensures
        s.absorb(data).wf(),
        s.absorb(data).cur_flags == s.cur_flags,
        s.absorb(data).pos == (s.pos + data.len()) % (STROBE_R as int),
    decreases data.len(),
{
    if data.len() > 0 {
        lemma_absorb_wf(s, data.drop_last());
        let t = s.absorb(data.drop_last());
        lemma_step_wf(t.mix(t.pos, data.last()));
    }
}

/// Squeezing keeps a state well formed and moves the cursor by the number of
/// bytes, modulo the rate.
pub proof fn lemma_squeeze_wf(s: Duplex, n: nat)
    requires
        s.wf(),
    ensures
        s.squeeze(n).wf(),
        s.squeeze(n).cur_flags == s.cur_flags,
        s.squeeze(n).pos == (s.pos + n) % (STROBE_R as int),
        s.squeezed(n).len() == n,
    decreases n,
{
    if n > 0 {
        lemma_squeeze_wf(s, (n - 1) as nat);
        let t = s.squeeze((n - 1) as nat);
        lemma_step_wf(t.blank(t.pos));
    }
}

/// Beginning a run keeps a state well formed; a run that squeezes begins at
/// the start of a freshly permuted block.
pub proof fn lemma_begin_op_wf(s: Duplex, flags: u8, more: bool)
    requires
        s.wf(),
    ensures
        s.begin_op(flags, more).wf(),
        !more ==> s.begin_op(flags, more).cur_flags == flags,
        !more && forces_permutation(flags) ==> s.begin_op(flags, more).pos == 0,
{
    if !more {
        let opened = Duplex { pos_begin: s.pos + 1, cur_flags: flags, ..s };
        let first = opened.absorb_byte(s.pos_begin as u8);
        lemma_step_wf(opened.mix(opened.pos, s.pos_begin as u8));
        lemma_step_wf(first.mix(first.pos, flags));
    }
}

/// Every operation of the engine keeps a state well formed.
pub proof fn lemma_operations_wf(s: Duplex, data: Seq<u8>, n: nat, more: bool)
    requires
        s.wf(),
    ensures
        s.meta_ad(data, more).wf(),
        s.ad(data, more).wf(),
        s.prf(n, more).wf(),
        s.prf_output(n, more).len() == n,
        Duplex::init(data).wf(),
{
    lemma_begin_op_wf(s, OP_META_AD, more);
    lemma_absorb_wf(s.begin_op(OP_META_AD, more), data);
    lemma_begin_op_wf(s, OP_AD, more);
    lemma_absorb_wf(s.begin_op(OP_AD, more), data);
    lemma_begin_op_wf(s, OP_PRF, more);
    lemma_squeeze_wf(s.begin_op(OP_PRF, more), n);
    let fresh = Duplex { state: permuted(initial_block()), pos: 0, pos_begin: 0, cur_flags: 0 };
    lemma_begin_op_wf(fresh, OP_META_AD, false);
    lemma_absorb_wf(fresh.begin_op(OP_META_AD, false), data);
}

/// Of the three markers, only the one of a squeezing run forces the
/// permutation, and no two are the same.
pub proof fn lemma_markers()
    ensures
        forces_permutation(OP_PRF),
        !forces_permutation(OP_META_AD),
        !forces_permutation(OP_AD),
        OP_META_AD != OP_AD && OP_AD != OP_PRF && OP_PRF != OP_META_AD,
{
    assert(0x07u8 & (4u8 | 32u8) != 0) by (bit_vector);
    assert(0x12u8 & (4u8 | 32u8) == 0) by (bit_vector);
    assert(0x02u8 & (4u8 | 32u8) == 0) by (bit_vector);
}

/// Inside a block, absorbing is xoring the input into the state from the
/// cursor on: nothing else changes, and the permutation does not run. Input
/// that ends exactly at the end of the block fills it, and the permutation
/// then runs once.
pub proof fn lemma_absorb_in_block(s: Duplex, data: Seq<u8>)
    requires
        s.wf(),
        s.pos + data.len() <= STROBE_R,
    ensures
        s.pos + data.len() < STROBE_R ==> s.absorb(data) == s.filled(data),
        s.pos + data.len() == STROBE_R && data.len() > 0 ==> s.absorb(data) == s.filled(
            data,
        ).run_f(),
    decreases data.len(),
{
    if data.len() == 0 {
        assert(s.filled(data) =~= s);
    } else {
        let head = data.drop_last();
        lemma_absorb_in_block(s, head);
        let t = s.filled(head);
        assert(s.absorb(head) == t);
        let mixed = t.mix(t.pos, data.last());
        let moved = Duplex { pos: mixed.pos + 1, ..mixed };
        assert(moved =~= s.filled(data));
    }
}

/// Inside a block, squeezing is reading the state from the cursor on and
/// blanking what was read: nothing else changes, and the permutation does not
/// run. Output that ends exactly at the end of the block is read in the same
/// way, and the permutation then runs once.
pub proof fn lemma_squeeze_in_block(s: Duplex, n: nat)
    requires
        s.wf(),
        s.pos + n <= STROBE_R,
    ensures
        s.squeezed(n) == s.state.subrange(s.pos, s.pos + n),
        s.pos + n < STROBE_R ==> s.squeeze(n) == s.drained(n),
        s.pos + n == STROBE_R && n > 0 ==> s.squeeze(n) == s.drained(n).run_f(),
    decreases n,
{
    if n == 0 {
        assert(s.drained(n) =~= s);
    } else {
        let m = (n - 1) as nat;
        lemma_squeeze_in_block(s, m);
        let t = s.drained(m);
        assert(s.squeeze(m) == t);
        let blanked = t.blank(t.pos);
        let moved = Duplex { pos: blanked.pos + 1, ..blanked };
        assert(moved =~= s.drained(n));
    }
    assert forall|i: int| 0 <= i < n implies #[trigger] s.squeezed(n)[i] == s.state[s.pos + i] by {
        lemma_squeeze_in_block(s, i as nat);
    }
    assert(s.squeezed(n) =~= s.state.subrange(s.pos, s.pos + n));
}

/// The frame of an absorbing run that fits the block is two bytes xored in
/// at the cursor: where the run before it began, and the marker. The cursor
/// moves past them, the run begins behind its first byte, and the permutation
/// does not run, whatever the run before was.
pub proof fn lemma_absorbing_frame(s: Duplex, flags: u8)
    requires
        s.wf(),
        s.pos + 2 < STROBE_R,
        !forces_permutation(flags),
    ensures
        s.begin_op(flags, false) == (Duplex {
            state: s.state.update(s.pos, s.state[s.pos] ^ (s.pos_begin as u8)).update(
                s.pos + 1,
                s.state[s.pos + 1] ^ flags,
            ),
            pos: s.pos + 2,
            pos_begin: s.pos + 1,
            cur_flags: flags,
        }),
{
}

/// A squeezing run that is started reads its first byte at the start of a
/// block that the permutation has just made: so what it reads depends on all
/// that was absorbed before.
pub proof fn lemma_squeezing_starts_fresh(s: Duplex)
    requires
        s.wf(),
    ensures
        s.begin_op(OP_PRF, false).pos == 0,
        s.begin_op(OP_PRF, false).pos_begin == 0,
        exists|block: Seq<u8>| s.begin_op(OP_PRF, false).state == permuted(block),
{
    lemma_markers();
    let opened = Duplex { pos_begin: s.pos + 1, cur_flags: OP_PRF, ..s };
    let first = opened.absorb_byte(s.pos_begin as u8);
    lemma_step_wf(opened.mix(opened.pos, s.pos_begin as u8));
    let second = first.mix(first.pos, OP_PRF);
    lemma_step_wf(second);
    let framed = second.step();
    if framed.pos != 0 {
        assert(framed.run_f().state == permuted(framed.padded().state));
    } else {
        let moved = Duplex { pos: second.pos + 1, ..second };
        assert(framed.state == permuted(moved.padded().state));
    }
}

/// Absorbing `a` and then `b` is absorbing the two as one string.
pub proof fn lemma_absorb_concat(s: Duplex, a: Seq<u8>, b: Seq<u8>)
    ensures
        s.absorb(a + b) == s.absorb(a).absorb(b),
    decreases b.len(),
{
    if b.len() == 0 {
        assert(a + b =~= a);
    } else {
        assert((a + b).drop_last() =~= a + b.drop_last());
        assert((a + b).last() == b.last());
        lemma_absorb_concat(s, a, b.drop_last());
    }
}

/// Input may be streamed: however a string is cut into chunks, absorbing the
/// first chunk by a call that starts the run and each further chunk by a call
/// that goes on with it leaves the state that one call on the whole string
/// leaves, whatever state the engine was in and whichever marker the run has.
pub proof fn lemma_chunking(s: Duplex, flags: u8, chunks: Seq<Seq<u8>>)
    requires
        chunks.len() >= 1,
    ensures
        s.absorb_chunked(flags, chunks) == s.absorb_run(flags, chunks.flatten(), false),
    decreases chunks.len(),
{
    if chunks.len() == 1 {
        chunks.lemma_flatten_one_element();
    } else {
        let head = chunks.drop_last();
        lemma_chunking(s, flags, head);
        lemma_absorb_concat(s.begin_op(flags, false), head.flatten(), chunks.last());
        head.lemma_flatten_push(chunks.last());
        assert(head.push(chunks.last()) =~= chunks);
    }
}

/// The streaming law for the two absorbing operations of the engine: the
/// chunks of a string, absorbed by calls of which only the first starts the
/// run, leave the engine as one call on the string does, and so every later
/// output is the same, here the next `n` bytes.
pub proof fn lemma_chunking_ad(s: Duplex, chunks: Seq<Seq<u8>>, n: nat, more: bool)
    requires
        chunks.len() >= 1,
    ensures
        s.absorb_chunked(OP_META_AD, chunks) == s.meta_ad(chunks.flatten(), false),
        s.absorb_chunked(OP_AD, chunks) == s.ad(chunks.flatten(), false),
        s.absorb_chunked(OP_META_AD, chunks).prf_output(n, more) == s.meta_ad(
            chunks.flatten(),
            false,
        ).prf_output(n, more),
        s.absorb_chunked(OP_AD, chunks).prf_output(n, more) == s.ad(
            chunks.flatten(),
            false,
        ).prf_output(n, more),
{
    lemma_chunking(s, OP_META_AD, chunks);
    lemma_chunking(s, OP_AD, chunks);
}

/// A call that goes on with the run in progress adds its bytes to those of
/// the call before: two calls, the second with `more`, are one call on the
/// concatenation.
pub proof fn lemma_continuation(s: Duplex, a: Seq<u8>, b: Seq<u8>, more: bool)
    ensures
        s.meta_ad(a, more).meta_ad(b, true) == s.meta_ad(a + b, more),
        s.ad(a, more).ad(b, true) == s.ad(a + b, more),
{
    lemma_absorb_concat(s.begin_op(OP_META_AD, more), a, b);
    lemma_absorb_concat(s.begin_op(OP_AD, more), a, b);
}

/// Squeezing `n` bytes and then `m` is squeezing `n + m`: the state is the
/// same, and the output is the two outputs in a row.
pub proof fn lemma_squeeze_concat(s: Duplex, n: nat, m: nat)
    ensures
        s.squeeze(n + m) == s.squeeze(n).squeeze(m),
        s.squeezed(n + m) == s.squeezed(n) + s.squeeze(n).squeezed(m),
    decreases m,
{
    if m > 0 {
        lemma_squeeze_concat(s, n, (m - 1) as nat);
    }
    assert forall|i: int| 0 <= i < n + m implies #[trigger] s.squeezed(n + m)[i] == (s.squeezed(n)
        + s.squeeze(n).squeezed(m))[i] by {
        if i >= n {
            lemma_squeeze_concat(s, n, (i - n) as nat);
        }
    }
    assert(s.squeezed(n + m) =~= s.squeezed(n) + s.squeeze(n).squeezed(m));
}

/// Output may be streamed: a call that starts a squeezing run for `n` bytes
/// and one that goes on with it for `m` give, one after the other, the bytes
/// that one call for `n + m` gives, and leave the same state.
pub proof fn lemma_prf_continuation(s: Duplex, n: nat, m: nat, more: bool)
    ensures
        s.prf(n, more).prf(m, true) == s.prf(n + m, more),
        s.prf_output(n, more) + s.prf(n, more).prf_output(m, true) == s.prf_output(n + m, more),
{
    lemma_squeeze_concat(s.begin_op(OP_PRF, more), n, m);
}

/// No write that an operation makes directly reaches the capacity: xoring a
/// byte in at the cursor, blanking the byte there, and padding the block all
/// leave it as it was. Only the permutation changes it.
pub proof fn lemma_capacity_untouched(s: Duplex, byte: u8)
    requires
        s.state.len() == STATE_BYTES,
        0 <= s.pos <= STROBE_R,
    ensures
        s.mix(s.pos, byte).capacity() == s.capacity(),
        s.blank(s.pos).capacity() == s.capacity(),
        s.padded().capacity() == s.capacity(),
{
    assert(s.mix(s.pos, byte).capacity() =~= s.capacity());
    assert(s.blank(s.pos).capacity() =~= s.capacity());
    assert(s.padded().capacity() =~= s.capacity());
}

} // verus!
