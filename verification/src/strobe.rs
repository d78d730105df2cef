//! The duplex sponge engine: the three framed operations of the transcript,
//! on a state of 200 bytes that is wiped when the engine is dropped.

use crate::duplex::{initial_block, Duplex, FLAG_C, FLAG_K, OP_AD, OP_META_AD, OP_PRF, PREAMBLE};
use crate::duplex::STROBE_R;
use crate::permutation::permute;
use clear_on_drop::clear::Clear;
use vstd::prelude::*;

verus! {

/// A duplex sponge at the 128-bit security level.
///
/// Only the operations that absorb metadata, absorb data and squeeze output
/// are supported.
pub struct Strobe128 {
    state: [u8; 200],
    pos: u8,
    pos_begin: u8,
    cur_flags: u8,
}

impl View for Strobe128 {
    type V = Duplex;

    closed spec fn view(&self) -> Duplex {
        Duplex {
            state: self.state@,
            pos: self.pos as int,
            pos_begin: self.pos_begin as int,
            cur_flags: self.cur_flags,
        }
    }
}

/// Calls `clear_on_drop::clear::Clear::clear` on the state as a slice. The
/// contract claims that every byte is zero afterwards: the crate's source
/// overwrites the whole slice with zero bytes and hides the write from the
/// optimizer; it has no failing path. Not proved here.
#[verifier::external_body]
fn wipe_state(state: &mut [u8; 200])
    ensures
        forall|i: int| 0 <= i < 200 ==> final(state)@[i] == 0,
    opens_invariants none
    no_unwind
{
    state[..].clear()
}

impl Strobe128 {
    /// What holds of every engine: its state is well formed.
    #[verifier::type_invariant]
    pub open spec fn inv(self) -> bool {
        self@.wf()
    }

    /// Starts an engine for the protocol named by `protocol_label`.
    pub fn new(protocol_label: &[u8]) -> (strobe: Strobe128)
        ensures
            strobe@ == Duplex::init(protocol_label@),
            strobe@.wf(),
    {
        let mut state: [u8; 200] = [0u8; 200];
        let mut i: usize = 0;
        while i < 18
            invariant
                i <= 18,
                forall|j: int| 0 <= j < i ==> state@[j] == PREAMBLE@[j],
                forall|j: int| i <= j < 200 ==> state@[j] == 0,
            decreases 18 - i,
        {
            state[i] = PREAMBLE[i];
            i += 1;
        }
        assert(state@ =~= initial_block());
        permute(&mut state);
        let mut strobe = Strobe128 { state, pos: 0, pos_begin: 0, cur_flags: 0 };
        strobe.meta_ad(protocol_label, false);
        strobe
    }

    /// Absorbs `data` as metadata. With `more`, the bytes go on with the run
    /// in progress; without it, a new run is framed first.
    pub fn meta_ad(&mut self, data: &[u8], more: bool)
        ensures
            final(self)@ == old(self)@.meta_ad(data@, more),
            final(self)@.wf(),
    {
        self.begin_op(OP_META_AD, more);
        self.absorb(data);
        proof {
            use_type_invariant(&*self);
        }
    }

    /// Absorbs `data` as data. With `more`, the bytes go on with the run in
    /// progress; without it, a new run is framed first.
    pub fn ad(&mut self, data: &[u8], more: bool)
        ensures
            final(self)@ == old(self)@.ad(data@, more),
            final(self)@.wf(),
    {
        self.begin_op(OP_AD, more);
        self.absorb(data);
        proof {
            use_type_invariant(&*self);
        }
    }

    /// Fills `data` with output. With `more`, the bytes go on with the run in
    /// progress; without it, a new run is framed first, and the permutation
    /// runs before the first byte is read.
    pub fn prf(&mut self, data: &mut [u8], more: bool)
        ensures
            final(self)@ == old(self)@.prf(old(data)@.len(), more),
            final(data)@ == old(self)@.prf_output(old(data)@.len(), more),
            final(self)@.wf(),
    {
        self.begin_op(OP_PRF, more);
        self.squeeze(data);
        proof {
            use_type_invariant(&*self);
        }
    }

    /// Overwrites the state with zeros, as dropping the engine does. The
    /// engine holds nothing of its past afterwards, so this is the last call
    /// to make on one that is kept in memory.
    pub fn erase(&mut self)
        ensures
            final(self)@ == old(self)@.erased(),
            final(self)@.wf(),
        opens_invariants none
        no_unwind
    {
        proof {
            use_type_invariant(&*self);
        }
        wipe_state(&mut self.state);
        assert(self.state@ =~= old(self)@.erased().state);
    }

    fn run_f(&mut self, at: u8)
        requires
            at <= STROBE_R,
        ensures
            final(self)@ == (Duplex { pos: at as int, ..old(self)@ }).run_f(),
    {
        proof {
            use_type_invariant(&*self);
        }
        let at: usize = at as usize;
        self.state[at] = self.state[at] ^ self.pos_begin;
        self.state[at + 1] = self.state[at + 1] ^ 0x04;
        self.state[STROBE_R as usize + 1] = self.state[STROBE_R as usize + 1] ^ 0x80;
        permute(&mut self.state);
        self.pos = 0;
        self.pos_begin = 0;
    }

    fn step(&mut self)
        ensures
            final(self)@ == old(self)@.step(),
    {
        proof {
            use_type_invariant(&*self);
        }
        let next: u8 = self.pos + 1;
        if next == STROBE_R {
            self.run_f(next);
        } else {
            self.pos = next;
        }
    }

    fn absorb_byte(&mut self, byte: u8)
        ensures
            final(self)@ == old(self)@.absorb_byte(byte),
    {
        proof {
            use_type_invariant(&*self);
        }
        let at: usize = self.pos as usize;
        self.state[at] = self.state[at] ^ byte;
        self.step();
    }

    fn absorb(&mut self, data: &[u8])
        ensures
            final(self)@ == old(self)@.absorb(data@),
    {
        let mut i: usize = 0;
        while i < data.len()
            invariant
                i <= data@.len(),
                self@ == old(self)@.absorb(data@.take(i as int)),
            decreases data@.len() - i,
        {
            proof {
                assert(data@.take(i + 1).drop_last() =~= data@.take(i as int));
            }
            self.absorb_byte(data[i]);
            i += 1;
        }
        assert(data@.take(i as int) =~= data@);
    }

    fn squeeze(&mut self, data: &mut [u8])
        ensures
            final(self)@ == old(self)@.squeeze(old(data)@.len()),
            final(data)@ == old(self)@.squeezed(old(data)@.len()),
    {
        let mut i: usize = 0;
        while i < data.len()
            invariant
                i <= data@.len(),
                data@.len() == old(data)@.len(),
                self@ == old(self)@.squeeze(i as nat),
                forall|j: int| 0 <= j < i ==> data@[j] == old(self)@.squeeze(j as nat).peek(),
            decreases data@.len() - i,
        {
            proof {
                use_type_invariant(&*self);
            }
            let at: usize = self.pos as usize;
            data[i] = self.state[at];
            self.state[at] = 0;
            self.step();
            i += 1;
        }
        assert(data@ =~= old(self)@.squeezed(old(data)@.len()));
    }

    fn begin_op(&mut self, flags: u8, more: bool)
        ensures
            final(self)@ == old(self)@.begin_op(flags, more),
    {
        if more {
            return ;
        }
        proof {
            use_type_invariant(&*self);
        }
        let old_begin: u8 = self.pos_begin;
        self.pos_begin = self.pos + 1;
        self.cur_flags = flags;
        self.absorb_byte(old_begin);
        self.absorb_byte(flags);
        proof {
            use_type_invariant(&*self);
        }
        let force_f: bool = 0 != (flags & (FLAG_C | FLAG_K));
        if force_f && self.pos != 0 {
            self.run_f(self.pos);
        }
    }
}

impl Clone for Strobe128 {
    /// An independent copy of the whole engine.
    fn clone(&self) -> (copy: Strobe128)
        ensures
            copy@ == self@,
    {
        proof {
            use_type_invariant(self);
        }
        Strobe128 {
            state: self.state,
            pos: self.pos,
            pos_begin: self.pos_begin,
            cur_flags: self.cur_flags,
        }
    }
}

impl Drop for Strobe128 {
    /// Overwrites the state, so that nothing of it is left in memory.
    fn drop(&mut self)
        ensures
            final(self)@ == old(self)@.erased(),
        opens_invariants none
        no_unwind
    {
        self.erase();
    }
}

} // verus!
