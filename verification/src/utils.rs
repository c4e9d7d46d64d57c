//! Small helpers: the current time, random bytes, and a comparison of byte
//! strings whose running time does not depend on where they differ.
use crate::clock::now_secs;
use crate::primitives::thread_rng_fill;
use vstd::prelude::*;

verus! {

/// Seconds since the Unix epoch by the system clock (0 if the clock reads
/// earlier than the epoch).
pub fn get_current_timestamp() -> u64 {
    now_secs()
}

/// `length` random bytes from the thread's random generator.
pub fn generate_random_bytes(length: usize) -> (r: Result<Vec<u8>, crate::keys::CryptoError>)
    ensures
        r matches Ok(bytes) && bytes@.len() == length,
{
    let mut bytes: Vec<u8> = vec![0u8; length];
    thread_rng_fill(&mut bytes);
    Ok(bytes)
}

/// Whether `a` and `b` hold the same bytes.  Every byte pair is examined,
/// whatever the first difference, when the lengths agree.
pub fn secure_compare(a: &[u8], b: &[u8]) -> (r: bool)
    ensures
        r == (a@ == b@),
{
    if a.len() != b.len() {
        return false;
    }
    let mut result: u8 = 0;
    let mut i: usize = 0;
    while i < a.len()
        invariant
            a@.len() == b@.len(),
            i <= a@.len(),
            (result == 0) <==> forall|j: int| 0 <= j < i ==> a@[j] == b@[j],
        decreases a@.len() - i,
    {
        let x = a[i];
        let y = b[i];
        let before = result;
        result = result | (x ^ y);
        assert((before | (x ^ y)) == 0u8 <==> (before == 0u8 && x == y)) by (bit_vector);
        proof {
            if result == 0 {
                assert forall|j: int| 0 <= j < i + 1 implies a@[j] == b@[j] by {
                    if j < i {
                    } else {
                        assert(j == i);
                    }
                }
            }
        }
        i = i + 1;
    }
    proof {
        if result == 0 {
            assert(a@ =~= b@);
        }
    }
    result == 0
}

} // verus!
