//! The fixed-width permutation under the sponge, on a state of 200 bytes.
//!
//! The permutation itself is Keccak-f[1600] on 25 lanes of 64 bits. It is
//! taken from the `keccak` crate and stays uninterpreted here: everything
//! proved about the sponge holds whatever the permutation computes. What is
//! proved in this module is the packing of bytes into lanes and back.

use clear_on_drop::clear::Clear;
use vstd::prelude::*;

verus! {

/// Width of the sponge state in bytes.
pub const STATE_BYTES: usize = 200;

/// Width of the sponge state in lanes of eight bytes.
pub const STATE_LANES: usize = 25;

/// What Keccak-f[1600] makes of the 25 lanes `lanes`.
pub uninterp spec fn keccak_f1600(lanes: Seq<u64>) -> Seq<u64>;

/// The lane that the eight bytes `b` pack into, least significant byte first.
pub open spec fn lane_of_bytes(b: Seq<u8>) -> u64 {
    (b[0] as int + b[1] as int * 0x100 + b[2] as int * 0x1_0000 + b[3] as int * 0x100_0000
        + b[4] as int * 0x1_0000_0000 + b[5] as int * 0x100_0000_0000 + b[6] as int
        * 0x1_0000_0000_0000 + b[7] as int * 0x100_0000_0000_0000) as u64
}

/// The eight bytes that the lane `lane` unpacks into, least significant first.
pub open spec fn bytes_of_lane(lane: u64) -> Seq<u8> {
    seq![
        (lane % 256) as u8,
        (lane / 0x100 % 256) as u8,
        (lane / 0x1_0000 % 256) as u8,
        (lane / 0x100_0000 % 256) as u8,
        (lane / 0x1_0000_0000 % 256) as u8,
        (lane / 0x100_0000_0000 % 256) as u8,
        (lane / 0x1_0000_0000_0000 % 256) as u8,
        (lane / 0x100_0000_0000_0000 % 256) as u8,
    ]
}

/// The 25 lanes that a state of 200 bytes packs into.
pub open spec fn lanes_of_state(state: Seq<u8>) -> Seq<u64> {
    Seq::new(STATE_LANES as nat, |k: int| lane_of_bytes(state.subrange(8 * k, 8 * k + 8)))
}

/// The 200 bytes that 25 lanes unpack into.
pub open spec fn state_of_lanes(lanes: Seq<u64>) -> Seq<u8> {
    Seq::new(STATE_BYTES as nat, |i: int| bytes_of_lane(lanes[i / 8])[i % 8])
}

/// The permutation as a function on states of 200 bytes: pack, permute the
/// lanes, unpack.
pub open spec fn permuted(state: Seq<u8>) -> Seq<u8> {
    state_of_lanes(keccak_f1600(lanes_of_state(state)))
}

/// Calls `keccak::f1600`, which runs the 24 rounds of Keccak-f[1600] on the
/// lanes in place. The contract only gives the outcome a name: the function
/// reads nothing but its argument and never fails, and what it computes is
/// not restated or proved here.
#[verifier::external_body]
fn f1600(lanes: &mut [u64; 25])
    ensures
        final(lanes)@ == keccak_f1600(old(lanes)@),
    no_unwind
{
    keccak::f1600(lanes)
}

/// Calls `clear_on_drop::clear::Clear::clear` on the lanes as a slice. The
/// contract claims that every lane is zero afterwards: the crate's source
/// overwrites the whole slice with zero bytes and hides the write from the
/// optimizer. Not proved here.
#[verifier::external_body]
fn wipe_lanes(lanes: &mut [u64; 25])
    ensures
        forall|k: int| 0 <= k < 25 ==> final(lanes)@[k] == 0,
    no_unwind
{
    lanes[..].clear()
}

/// Packing then unpacking a state gives the state back, and the other way
/// round for lanes, so the permutation on bytes loses nothing of the one on
/// lanes.
pub proof fn lemma_packing_round_trip(state: Seq<u8>, lanes: Seq<u64>)
    requires
        state.len() == STATE_BYTES,
        lanes.len() == STATE_LANES,
    ensures
        state_of_lanes(lanes_of_state(state)) == state,
        lanes_of_state(state_of_lanes(lanes)) == lanes,
{
    assert forall|i: int| 0 <= i < 200 implies #[trigger] state_of_lanes(lanes_of_state(state))[i]
        == state[i] by {
        let k = i / 8;
        let b = state.subrange(8 * k, 8 * k + 8);
        lemma_lane_bytes_invert(b);
        assert(bytes_of_lane(lane_of_bytes(b))[i % 8] == b[i % 8]);
        assert(b[i % 8] == state[i]);
    }
    assert(state_of_lanes(lanes_of_state(state)) =~= state);
    assert forall|k: int| 0 <= k < 25 implies #[trigger] lanes_of_state(state_of_lanes(lanes))[k]
        == lanes[k] by {
        let b = state_of_lanes(lanes).subrange(8 * k, 8 * k + 8);
        assert(b =~= bytes_of_lane(lanes[k])) by {
            assert forall|j: int| 0 <= j < 8 implies b[j] == bytes_of_lane(lanes[k])[j] by {
                assert(b[j] == state_of_lanes(lanes)[8 * k + j]);
                assert((8 * k + j) / 8 == k && (8 * k + j) % 8 == j);
            }
        }
        lemma_bytes_lane_invert(lanes[k]);
    }
    assert(lanes_of_state(state_of_lanes(lanes)) =~= lanes);
}

proof fn lemma_lane_bytes_invert(b: Seq<u8>)
    requires
        b.len() == 8,
    ensures
        bytes_of_lane(lane_of_bytes(b)) == b,
{
    let b0: u64 = b[0] as u64;
    let b1: u64 = b[1] as u64;
    let b2: u64 = b[2] as u64;
    let b3: u64 = b[3] as u64;
    let b4: u64 = b[4] as u64;
    let b5: u64 = b[5] as u64;
    let b6: u64 = b[6] as u64;
    let b7: u64 = b[7] as u64;
    let w: u64 = lane_of_bytes(b);
    assert(w == b0 + b1 * 0x100 + b2 * 0x1_0000 + b3 * 0x100_0000 + b4 * 0x1_0000_0000 + b5
        * 0x100_0000_0000 + b6 * 0x1_0000_0000_0000 + b7 * 0x100_0000_0000_0000);
    assert(w % 256 == b0 && w / 0x100 % 256 == b1 && w / 0x1_0000 % 256 == b2 && w / 0x100_0000
        % 256 == b3 && w / 0x1_0000_0000 % 256 == b4 && w / 0x100_0000_0000 % 256 == b5 && w
        / 0x1_0000_0000_0000 % 256 == b6 && w / 0x100_0000_0000_0000 % 256 == b7)
        by (bit_vector)
        requires
            b0 < 256,
            b1 < 256,
            b2 < 256,
            b3 < 256,
            b4 < 256,
            b5 < 256,
            b6 < 256,
            b7 < 256,
            w == b0 + b1 * 0x100 + b2 * 0x1_0000 + b3 * 0x100_0000 + b4 * 0x1_0000_0000 + b5
                * 0x100_0000_0000 + b6 * 0x1_0000_0000_0000 + b7 * 0x100_0000_0000_0000,
    ;
    assert(bytes_of_lane(w) =~= b);
}

proof fn lemma_bytes_lane_invert(lane: u64)
    ensures
        lane_of_bytes(bytes_of_lane(lane)) == lane,
{
    assert(lane == lane % 256 + (lane / 0x100 % 256) * 0x100 + (lane / 0x1_0000 % 256) * 0x1_0000
        + (lane / 0x100_0000 % 256) * 0x100_0000 + (lane / 0x1_0000_0000 % 256) * 0x1_0000_0000
        + (lane / 0x100_0000_0000 % 256) * 0x100_0000_0000 + (lane / 0x1_0000_0000_0000 % 256)
        * 0x1_0000_0000_0000 + (lane / 0x100_0000_0000_0000 % 256) * 0x100_0000_0000_0000)
        by (bit_vector);
}

/// Reads lane `k` of the state.
fn load_lane(state: &[u8; 200], k: usize) -> (lane: u64)
    requires
        k < STATE_LANES,
    ensures
        lane == lane_of_bytes(state@.subrange(8 * k, 8 * k + 8)),
    no_unwind
{
    let at: usize = 8 * k;
    let b0: u64 = state[at] as u64;
    let b1: u64 = state[at + 1] as u64;
    let b2: u64 = state[at + 2] as u64;
    let b3: u64 = state[at + 3] as u64;
    let b4: u64 = state[at + 4] as u64;
    let b5: u64 = state[at + 5] as u64;
    let b6: u64 = state[at + 6] as u64;
    let b7: u64 = state[at + 7] as u64;
    let lane: u64 = b0 | b1 << 8 | b2 << 16 | b3 << 24 | b4 << 32 | b5 << 40 | b6 << 48 | b7 << 56;
    proof {
        assert(lane == b0 + b1 * 0x100 + b2 * 0x1_0000 + b3 * 0x100_0000 + b4 * 0x1_0000_0000 + b5
            * 0x100_0000_0000 + b6 * 0x1_0000_0000_0000 + b7 * 0x100_0000_0000_0000)
            by (bit_vector)
            requires
                b0 < 256,
                b1 < 256,
                b2 < 256,
                b3 < 256,
                b4 < 256,
                b5 < 256,
                b6 < 256,
                b7 < 256,
                lane == b0 | b1 << 8 | b2 << 16 | b3 << 24 | b4 << 32 | b5 << 40 | b6 << 48 | b7
                    << 56,
        ;
    }
    lane
}

/// Writes `lane` as lane `k` of the state.
fn store_lane(state: &mut [u8; 200], k: usize, lane: u64)
    requires
        k < STATE_LANES,
    ensures
        forall|i: int|
            0 <= i < 200 ==> final(state)@[i] == if 8 * k <= i < 8 * k + 8 {
                bytes_of_lane(lane)[i - 8 * k]
            } else {
                old(state)@[i]
            },
    no_unwind
{
    let at: usize = 8 * k;
    proof {
        assert(lane & 0xff == lane % 256) by (bit_vector);
        assert((lane >> 8) & 0xff == lane / 0x100 % 256) by (bit_vector);
        assert((lane >> 16) & 0xff == lane / 0x1_0000 % 256) by (bit_vector);
        assert((lane >> 24) & 0xff == lane / 0x100_0000 % 256) by (bit_vector);
        assert((lane >> 32) & 0xff == lane / 0x1_0000_0000 % 256) by (bit_vector);
        assert((lane >> 40) & 0xff == lane / 0x100_0000_0000 % 256) by (bit_vector);
        assert((lane >> 48) & 0xff == lane / 0x1_0000_0000_0000 % 256) by (bit_vector);
        assert((lane >> 56) & 0xff == lane / 0x100_0000_0000_0000 % 256) by (bit_vector);
    }
    state[at] = (lane & 0xff) as u8;
    state[at + 1] = ((lane >> 8) & 0xff) as u8;
    state[at + 2] = ((lane >> 16) & 0xff) as u8;
    state[at + 3] = ((lane >> 24) & 0xff) as u8;
    state[at + 4] = ((lane >> 32) & 0xff) as u8;
    state[at + 5] = ((lane >> 40) & 0xff) as u8;
    state[at + 6] = ((lane >> 48) & 0xff) as u8;
    state[at + 7] = ((lane >> 56) & 0xff) as u8;
}

/// Packs a state of 200 bytes into its 25 lanes, overwriting all of them.
pub fn pack_lanes(state: &[u8; 200], lanes: &mut [u64; 25])
    ensures
        final(lanes)@ == lanes_of_state(state@),
    no_unwind
{
    let mut k: usize = 0;
    while k < 25
        invariant
            k <= 25,
            forall|j: int| 0 <= j < k ==> lanes@[j] == lanes_of_state(state@)[j],
        decreases 25 - k,
    {
        lanes[k] = load_lane(state, k);
        k += 1;
    }
    assert(lanes@ =~= lanes_of_state(state@));
}

/// Unpacks 25 lanes into a state of 200 bytes, overwriting all of it.
pub fn unpack_lanes(lanes: &[u64; 25], state: &mut [u8; 200])
    ensures
        final(state)@ == state_of_lanes(lanes@),
    no_unwind
{
    let mut k: usize = 0;
    while k < 25
        invariant
            k <= 25,
            forall|i: int| 0 <= i < 8 * k ==> state@[i] == state_of_lanes(lanes@)[i],
        decreases 25 - k,
    {
        store_lane(state, k, lanes[k]);
        k += 1;
    }
    assert(state@ =~= state_of_lanes(lanes@));
}

/// Runs the permutation on the state in place, with `lanes` as the room to
/// work in. Whatever the lanes held is lost; they are wiped before the
/// function returns, so that no copy of the state stays behind in them.
pub fn permute_with_scratch(state: &mut [u8; 200], lanes: &mut [u64; 25])
    ensures
        final(state)@ == permuted(old(state)@),
        forall|k: int| 0 <= k < 25 ==> final(lanes)@[k] == 0,
    no_unwind
{
    pack_lanes(state, lanes);
    f1600(lanes);
    unpack_lanes(lanes, state);
    wipe_lanes(lanes);
}

/// Runs the permutation on the state in place.
pub fn permute(state: &mut [u8; 200])
    ensures
        final(state)@ == permuted(old(state)@),
    no_unwind
{
    let mut lanes: [u64; 25] = [
        0, 0, 0, 0, 0, 0, 0, 0, 0, 0, 0, 0, 0, 0, 0, 0, 0, 0, 0, 0, 0, 0, 0, 0, 0,
    ];
    permute_with_scratch(state, &mut lanes);
}

} // verus!
