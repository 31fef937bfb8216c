//! Small operations on byte strings that the rest of the library shares.

use vstd::prelude::*;

verus! {

/// Appends `bytes` to `out`.
pub fn append_bytes(out: &mut Vec<u8>, bytes: &[u8])
    ensures
        final(out)@ == old(out)@ + bytes@,
{
    let ghost before = out@;
    let mut i: usize = 0;
    while i < bytes.len()
        invariant
            i <= bytes@.len(),
            out@ == before + bytes@.subrange(0, i as int),
        decreases bytes@.len() - i,
    {
        out.push(bytes[i]);
        assert(out@ =~= before + bytes@.subrange(0, i + 1));
        i = i + 1;
    }
    assert(bytes@.subrange(0, bytes@.len() as int) =~= bytes@);
}

/// The bytes as an array of 32, where there are 32 of them.
pub fn to_array_32(bytes: &[u8]) -> (r: Option<[u8; 32]>)
    ensures
        match r {
            Some(a) => a@ == bytes@,
            None => bytes@.len() != 32,
        },
{
    if bytes.len() != 32 {
        return None;
    }
    let mut raw: [u8; 32] = [0u8; 32];
    let mut i: usize = 0;
    while i < 32
        invariant
            i <= 32,
            bytes@.len() == 32,
            forall|j: int| 0 <= j < i ==> raw@[j] == bytes@[j],
        decreases 32 - i,
    {
        raw[i] = bytes[i];
        i = i + 1;
    }
    assert(raw@ =~= bytes@);
    Some(raw)
}

/// The bytes as an array of 33, where there are 33 of them.
pub fn to_array_33(bytes: &[u8]) -> (r: Option<[u8; 33]>)
    ensures
        match r {
            Some(a) => a@ == bytes@,
            None => bytes@.len() != 33,
        },
{
    if bytes.len() != 33 {
        return None;
    }
    let mut raw: [u8; 33] = [0u8; 33];
    let mut i: usize = 0;
    while i < 33
        invariant
            i <= 33,
            bytes@.len() == 33,
            forall|j: int| 0 <= j < i ==> raw@[j] == bytes@[j],
        decreases 33 - i,
    {
        raw[i] = bytes[i];
        i = i + 1;
    }
    assert(raw@ =~= bytes@);
    Some(raw)
}

/// The bytes as an array of 64, where there are 64 of them.
pub fn to_array_64(bytes: &[u8]) -> (r: Option<[u8; 64]>)
    ensures
        match r {
            Some(a) => a@ == bytes@,
            None => bytes@.len() != 64,
        },
{
    if bytes.len() != 64 {
        return None;
    }
    let mut raw: [u8; 64] = [0u8; 64];
    let mut i: usize = 0;
    while i < 64
        invariant
            i <= 64,
            bytes@.len() == 64,
            forall|j: int| 0 <= j < i ==> raw@[j] == bytes@[j],
        decreases 64 - i,
    {
        raw[i] = bytes[i];
        i = i + 1;
    }
    assert(raw@ =~= bytes@);
    Some(raw)
}

} // verus!
