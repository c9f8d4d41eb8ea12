//! The repeating-key XOR that protects a catchdata blob.
use vstd::pervasive::VecAdditionalExecFns;
use vstd::prelude::*;

verus! {

/// `data` with byte `i` XORed with key byte `i mod |key|`.
pub open spec fn xor_with_key(data: Seq<u8>, key: Seq<u8>) -> Seq<u8> {
    Seq::new(data.len(), |i: int| data[i] ^ key[i % key.len() as int])
}

/// Applies the repeating key to `data` in place; applying it twice restores the data.
pub fn decrypt(data: &mut Vec<u8>, key: &[u8])
    requires
        key@.len() > 0,
    ensures
        final(data)@ == xor_with_key(old(data)@, key@),
{
    let ghost before = data@;
    let mut i: usize = 0;
    while i < data.len()
        invariant
            0 <= i <= data@.len(),
            key@.len() > 0,
            data@.len() == before.len(),
            forall|j: int| 0 <= j < i ==> data@[j] == before[j] ^ key@[j % key@.len() as int],
            forall|j: int| i <= j < data@.len() ==> data@[j] == before[j],
        decreases data@.len() - i,
    {
        let b = data[i] ^ key[i % key.len()];
        data.set(i, b);
        i += 1;
    }
    assert(data@ =~= xor_with_key(before, key@));
}

/// Decrypting twice with the same key gives the data back.
pub proof fn lemma_decrypt_involutive(data: Seq<u8>, key: Seq<u8>)
    requires
        key.len() > 0,
    ensures
        xor_with_key(xor_with_key(data, key), key) == data,
{
    let once = xor_with_key(data, key);
    assert forall|i: int| 0 <= i < data.len() implies #[trigger] xor_with_key(once, key)[i]
        == data[i] by {
        let k = key[i % key.len() as int];
        let d = data[i];
        assert((d ^ k) ^ k == d) by (bit_vector);
    }
    assert(xor_with_key(once, key) =~= data);
}

} // verus!
