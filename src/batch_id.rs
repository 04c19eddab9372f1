//! Batch identifiers: drawn at random on the sender, and naming the file a
//! receiver writes a reassembled object to.
use vstd::prelude::*;

use rand::Rng;

use crate::BATCH_ID_SIZE;

verus! {

/// Whether `b` is an ASCII letter or digit.
pub open spec fn is_alphanumeric(b: u8) -> bool {
    (48 <= b <= 57) || (65 <= b <= 90) || (97 <= b <= 122)
}

/// Relies on rand's `thread_rng` and the `Alphanumeric` distribution, which
/// samples bytes uniformly from `A-Z`, `a-z` and `0-9`: `n` such bytes.
#[verifier::external_body]
fn random_alphanumeric(n: usize) -> (r: Vec<u8>)
    ensures
        r@.len() == n,
        forall|i: int| 0 <= i < n ==> is_alphanumeric(#[trigger] r@[i]),
{
    rand::thread_rng().sample_iter(&rand::distributions::Alphanumeric).take(n).collect()
}

/// The batch id made of the bytes of `draw`.
pub fn batch_id_from(draw: &Vec<u8>) -> (r: [u8; BATCH_ID_SIZE])
    requires
        draw@.len() == BATCH_ID_SIZE,
    ensures
        r@ == draw@,
{
    let mut x: [u8; BATCH_ID_SIZE] = [0u8; BATCH_ID_SIZE];
    for i in 0..BATCH_ID_SIZE
        invariant
            draw@.len() == BATCH_ID_SIZE,
            x@.len() == BATCH_ID_SIZE,
            forall|k: int| 0 <= k < i ==> x@[k] == draw@[k],
    {
        x[i] = draw[i];
    }
    assert(x@ =~= draw@);
    x
}

/// A fresh random batch id of ASCII letters and digits, so that it also
/// reads as text.
pub fn generate_46b_batch_id() -> (r: [u8; BATCH_ID_SIZE])
    ensures
        forall|i: int| 0 <= i < BATCH_ID_SIZE ==> is_alphanumeric(#[trigger] r@[i]),
{
    let draw = random_alphanumeric(BATCH_ID_SIZE);
    let x = batch_id_from(&draw);
    assert forall|i: int| 0 <= i < BATCH_ID_SIZE implies is_alphanumeric(#[trigger] x@[i]) by {
        assert(x@[i] == draw@[i]);
    }
    x
}

/// The suffix of the file a completed batch is written to.
pub open spec fn batch_suffix() -> Seq<u8> {
    seq![46u8, 66u8, 65u8, 84u8, 67u8, 72u8]
}

/// The name of the file batch `batch_id` is written to: the id followed by
/// `.BATCH`.
pub fn batch_file_name(batch_id: &[u8; BATCH_ID_SIZE]) -> (r: Vec<u8>)
    ensures
        r@ == batch_id@ + batch_suffix(),
{
    let mut name: Vec<u8> = Vec::with_capacity(BATCH_ID_SIZE + 6);
    for i in 0..BATCH_ID_SIZE
        invariant
            name@ == batch_id@.subrange(0, i as int),
    {
        name.push(batch_id[i]);
        assert(batch_id@.subrange(0, i + 1) == batch_id@.subrange(0, i as int).push(batch_id@[i as int]));
    }
    name.push(46u8);
    name.push(66u8);
    name.push(65u8);
    name.push(84u8);
    name.push(67u8);
    name.push(72u8);
    assert(name@ =~= batch_id@ + batch_suffix());
    name
}

} // verus!
