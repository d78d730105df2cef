//! The duplex sponge engine on its own: framing, block boundaries, streaming.

use merlin::strobe::Strobe128;
use strobe_rs::{SecParam, Strobe};

const RATE: usize = 166;

fn pattern(len: usize, seed: u8) -> Vec<u8> {
    let mut v = Vec::with_capacity(len);
    for i in 0..len {
        v.push((i as u8).wrapping_mul(31).wrapping_add(seed));
    }
    v
}

fn squeeze(engine: &mut Strobe128, len: usize) -> Vec<u8> {
    let mut out = vec![0u8; len];
    engine.prf(&mut out, false);
    out
}

fn lanes_of(state: &[u8; 200]) -> [u64; 25] {
    let mut lanes = [0u64; 25];
    for k in 0..25 {
        let mut lane = [0u8; 8];
        lane.copy_from_slice(&state[8 * k..8 * k + 8]);
        lanes[k] = u64::from_le_bytes(lane);
    }
    lanes
}

fn keccak_on_bytes(state: &mut [u8; 200]) {
    let mut lanes = lanes_of(state);
    keccak::f1600(&mut lanes);
    for k in 0..25 {
        state[8 * k..8 * k + 8].copy_from_slice(&lanes[k].to_le_bytes());
    }
}

/// The first output of a fresh engine, computed step by step from the
/// definition of the framing: the initial block, the frame of the empty
/// protocol label, the frame of the squeezing run, the padding.
#[test]
fn first_output_follows_the_framing_rules() {
    let mut st = [0u8; 200];
    st[..6].copy_from_slice(&[1, 168, 1, 0, 1, 96]);
    st[6..18].copy_from_slice(b"STROBEv1.0.2");
    keccak_on_bytes(&mut st);
    // metadata run of the label: old start of run 0, then the marker
    st[0] ^= 0;
    st[1] ^= 0x12;
    // squeezing run: old start of run 1, then the marker
    st[2] ^= 1;
    st[3] ^= 0x07;
    // padding at the cursor: start of run 3, then the two marks
    st[4] ^= 3;
    st[5] ^= 0x04;
    st[167] ^= 0x80;
    keccak_on_bytes(&mut st);

    let mut engine = Strobe128::new(b"");
    assert_eq!(squeeze(&mut engine, 24), st[..24]);
}

#[test]
fn known_outputs() {
    let mut engine = Strobe128::new(b"engine");
    assert_eq!(
        squeeze(&mut engine, 8),
        [190, 119, 116, 94, 253, 140, 176, 170]
    );

    let mut engine = Strobe128::new(b"engine");
    engine.meta_ad(b"meta", false);
    engine.ad(b"data", false);
    assert_eq!(
        squeeze(&mut engine, 16),
        [207, 176, 22, 223, 190, 99, 89, 117, 228, 249, 35, 255, 12, 76, 154, 189]
    );
}

#[test]
fn engine_matches_reference_on_each_operation() {
    let mut real = Strobe128::new(b"engine test");
    let mut reference = Strobe::new(b"engine test", SecParam::B128);

    real.meta_ad(b"first", false);
    reference.meta_ad(b"first", false);
    real.meta_ad(b" and more", true);
    reference.meta_ad(b" and more", true);
    real.ad(b"payload", false);
    reference.ad(b"payload", false);
    real.ad(b" goes on", true);
    reference.ad(b" goes on", true);

    let mut real_out = [0u8; 40];
    let mut reference_out = [0u8; 40];
    real.prf(&mut real_out, false);
    reference.prf(&mut reference_out, false);
    assert_eq!(real_out, reference_out);

    real.prf(&mut real_out, true);
    reference.prf(&mut reference_out, true);
    assert_eq!(real_out, reference_out);

    real.prf(&mut real_out, false);
    reference.prf(&mut reference_out, false);
    assert_eq!(real_out, reference_out);

    real.ad(b"after output", false);
    reference.ad(b"after output", false);
    real.prf(&mut real_out, false);
    reference.prf(&mut reference_out, false);
    assert_eq!(real_out, reference_out);
}

#[test]
fn engine_matches_reference_around_the_block_boundary() {
    let lengths: [usize; 12] = [
        0,
        1,
        RATE - 5,
        RATE - 4,
        RATE - 3,
        RATE - 2,
        RATE - 1,
        RATE,
        RATE + 1,
        2 * RATE,
        2 * RATE + 1,
        1000,
    ];
    for &absorbed in lengths.iter() {
        for &squeezed in lengths.iter() {
            let mut real = Strobe128::new(b"boundary");
            let mut reference = Strobe::new(b"boundary", SecParam::B128);
            let data = pattern(absorbed, 7);

            real.meta_ad(&data, false);
            reference.meta_ad(&data, false);
            real.ad(&data, false);
            reference.ad(&data, false);

            let mut real_out = vec![0u8; squeezed];
            let mut reference_out = vec![0u8; squeezed];
            real.prf(&mut real_out, false);
            reference.prf(&mut reference_out, false);
            assert_eq!(real_out, reference_out);

            real.ad(&data, false);
            reference.ad(&data, false);
            let mut real_tail = [0u8; 32];
            let mut reference_tail = [0u8; 32];
            real.prf(&mut real_tail, false);
            reference.prf(&mut reference_tail, false);
            assert_eq!(real_tail, reference_tail);
        }
    }
}

#[test]
fn protocol_label_of_any_length_matches_reference() {
    for len in [0usize, 1, 17, RATE - 2, RATE - 1, RATE, RATE + 1, 400] {
        let label = pattern(len, 1);
        let mut real = Strobe128::new(&label);
        let mut reference = Strobe::new(&label, SecParam::B128);
        let mut real_out = [0u8; 64];
        let mut reference_out = [0u8; 64];
        real.prf(&mut real_out, false);
        reference.prf(&mut reference_out, false);
        assert_eq!(real_out, reference_out);
    }
}

/// Absorbing a string in one call, or cut into pieces of which only the
/// first starts the run, leaves the same engine.
#[test]
fn chunked_absorbing_equals_one_call() {
    let data = pattern(700, 3);
    let cuts: [&[usize]; 6] = [
        &[700],
        &[0, 700],
        &[1, 699],
        &[165, 1, 1, 533],
        &[166, 166, 166, 202],
        &[100, 0, 0, 250, 350],
    ];

    let mut whole = Strobe128::new(b"chunks");
    whole.meta_ad(&data, false);
    whole.ad(&data, false);
    let expected = squeeze(&mut whole, 64);

    for cut in cuts.iter() {
        let mut engine = Strobe128::new(b"chunks");
        let mut at = 0;
        for (i, len) in cut.iter().enumerate() {
            engine.meta_ad(&data[at..at + len], i != 0);
            at += len;
        }
        assert_eq!(at, data.len());
        at = 0;
        for (i, len) in cut.iter().enumerate() {
            engine.ad(&data[at..at + len], i != 0);
            at += len;
        }
        assert_eq!(squeeze(&mut engine, 64), expected);
    }
}

#[test]
fn chunked_absorbing_byte_by_byte() {
    let data = pattern(400, 9);
    let mut whole = Strobe128::new(b"bytes");
    whole.ad(&data, false);

    let mut engine = Strobe128::new(b"bytes");
    engine.ad(&data[..1], false);
    for i in 1..data.len() {
        engine.ad(&data[i..i + 1], true);
    }
    assert_eq!(squeeze(&mut engine, 48), squeeze(&mut whole, 48));
}

/// Two calls that each start a run are not one call on the concatenation.
#[test]
fn two_runs_differ_from_one() {
    let mut one = Strobe128::new(b"runs");
    one.ad(b"hello world", false);

    let mut two = Strobe128::new(b"runs");
    two.ad(b"hello ", false);
    two.ad(b"world", false);

    assert_ne!(squeeze(&mut one, 32), squeeze(&mut two, 32));
}

#[test]
fn metadata_differs_from_data() {
    let mut meta = Strobe128::new(b"kinds");
    meta.meta_ad(b"same bytes", false);

    let mut data = Strobe128::new(b"kinds");
    data.ad(b"same bytes", false);

    assert_ne!(squeeze(&mut meta, 32), squeeze(&mut data, 32));
}

/// Output may be drawn in pieces: a run that is gone on with gives the bytes
/// that one call gives.
#[test]
fn chunked_squeezing_equals_one_call() {
    let mut whole = Strobe128::new(b"stream");
    whole.ad(b"input", false);
    let mut expected = vec![0u8; 500];
    whole.prf(&mut expected, false);

    for first in [0usize, 1, 165, 166, 167, 332, 499, 500] {
        let mut engine = Strobe128::new(b"stream");
        engine.ad(b"input", false);
        let mut out = vec![0u8; 500];
        let (head, tail) = out.split_at_mut(first);
        engine.prf(head, false);
        engine.prf(tail, true);
        assert_eq!(out, expected);

        let mut after = [0u8; 16];
        let mut after_whole = [0u8; 16];
        let mut whole_again = Strobe128::new(b"stream");
        whole_again.ad(b"input", false);
        let mut skipped = vec![0u8; 500];
        whole_again.prf(&mut skipped, false);
        whole_again.prf(&mut after_whole, false);
        engine.prf(&mut after, false);
        assert_eq!(after, after_whole);
    }
}

#[test]
fn squeezing_twice_gives_different_bytes() {
    let mut engine = Strobe128::new(b"twice");
    let first = squeeze(&mut engine, 32);
    let second = squeeze(&mut engine, 32);
    assert_ne!(first, second);
}

#[test]
fn output_overwrites_the_whole_buffer() {
    let mut a = Strobe128::new(b"buffer");
    let mut b = Strobe128::new(b"buffer");
    let mut out_a = [0u8; 64];
    let mut out_b = [0xffu8; 64];
    a.prf(&mut out_a, false);
    b.prf(&mut out_b, false);
    assert_eq!(out_a, out_b);
}

#[test]
fn empty_calls_still_frame_a_run() {
    let mut plain = Strobe128::new(b"empty");
    let mut framed = Strobe128::new(b"empty");
    framed.ad(b"", false);
    assert_ne!(squeeze(&mut plain, 32), squeeze(&mut framed, 32));

    let mut reference = Strobe::new(b"empty", SecParam::B128);
    reference.ad(b"", false);
    let mut reference_out = [0u8; 32];
    reference.prf(&mut reference_out, false);
    let mut again = Strobe128::new(b"empty");
    again.ad(b"", false);
    assert_eq!(squeeze(&mut again, 32), reference_out);
}

#[test]
fn empty_continuation_changes_nothing() {
    let mut plain = Strobe128::new(b"nothing");
    plain.ad(b"abc", false);
    let mut touched = Strobe128::new(b"nothing");
    touched.ad(b"abc", false);
    touched.ad(b"", true);
    let mut none: [u8; 0] = [];
    touched.prf(&mut none, true);
    assert_eq!(squeeze(&mut plain, 32), squeeze(&mut touched, 32));
}

#[test]
fn copies_are_independent() {
    let mut first = Strobe128::new(b"fork");
    first.ad(b"shared past", false);
    let mut copy = first.clone();

    let from_copy = squeeze(&mut copy, 32);
    copy.ad(b"only the copy", false);
    let from_first = squeeze(&mut first, 32);
    assert_eq!(from_copy, from_first);

    first.ad(b"only the first", false);
    assert_ne!(squeeze(&mut first, 32), squeeze(&mut copy, 32));
}

/// An erased engine holds zeros: what it gives when its run is gone on with,
/// up to the end of the block, is the state itself.
#[test]
fn erased_engine_holds_zeros() {
    let mut engine = Strobe128::new(b"erase");
    engine.ad(b"something to forget", false);
    let mut before = [0u8; 100];
    engine.clone().prf(&mut before, true);
    assert_ne!(before, [0u8; 100]);

    engine.erase();
    let mut after = [0xffu8; 100];
    engine.prf(&mut after, true);
    assert_eq!(after, [0u8; 100]);
}
