//! Random bytes, from the generator that the operating system seeds.

use rand::RngCore;
use vstd::prelude::*;

verus! {

/// Calls `rand::thread_rng().fill_bytes`, which overwrites every byte of the
/// buffer with random data. Only the length is known of what comes out. The
/// generator is seeded by the operating system and panics where that fails.
#[verifier::external_body]
fn fill_random(buffer: &mut Vec<u8>)
    ensures
        final(buffer)@.len() == old(buffer)@.len(),
{
    rand::thread_rng().fill_bytes(buffer.as_mut_slice())
}

/// `len` bytes drawn at random.
pub fn random_bytes(len: usize) -> (buffer: Vec<u8>)
    ensures
        buffer@.len() == len,
{
    let mut buffer: Vec<u8> = Vec::new();
    let mut i: usize = 0;
    while i < len
        invariant
            i <= len,
            buffer@.len() == i,
        decreases len - i,
    {
        buffer.push(0u8);
        i += 1;
    }
    fill_random(&mut buffer);
    buffer
}

} // verus!
