//! The transform itself: XOR of the first sixteen payload bytes with the key,
//! and the fixed marker that stands in front of every encrypted asset.

use vstd::prelude::*;
use crate::{HEADER_LENGTH, RPGM_HEADER};

verus! {

/// `data` with its header XOR-ed against `key`, byte for byte. Bytes past the
/// header are kept, and so is whatever `key` does not reach; a payload shorter
/// than the header is transformed as far as it goes.
pub open spec fn xor_header(key: Seq<u8>, data: Seq<u8>) -> Seq<u8> {
    Seq::new(
        data.len(),
        |i: int|
            if i < HEADER_LENGTH && i < key.len() {
                data[i] ^ key[i]
            } else {
                data[i]
            },
    )
}

/// `file` begins with the marker of an encrypted asset.
pub open spec fn has_marker(file: Seq<u8>) -> bool {
    file.len() >= HEADER_LENGTH && file.subrange(0, HEADER_LENGTH as int) == RPGM_HEADER@
}

/// An encrypted asset: the marker, then the transformed payload.
pub open spec fn with_marker(payload: Seq<u8>) -> Seq<u8> {
    RPGM_HEADER@ + payload
}

/// What follows the marker in `file`.
pub open spec fn payload_of(file: Seq<u8>) -> Seq<u8>
    recommends
        file.len() >= HEADER_LENGTH,
{
    file.skip(HEADER_LENGTH as int)
}

/// The transform is its own inverse: applied twice with one key it gives the
/// data back, in the header as everywhere else.
pub proof fn lemma_xor_header_twice(key: Seq<u8>, data: Seq<u8>)
    ensures
        xor_header(key, xor_header(key, data)) == data,
{
    let once = xor_header(key, data);
    let twice = xor_header(key, once);
    assert forall|i: int| 0 <= i < data.len() implies twice[i] == data[i] by {
        if i < HEADER_LENGTH && i < key.len() {
            let d = data[i];
            let k = key[i];
            assert((d ^ k) ^ k == d) by (bit_vector);
        }
    }
}

/// A key that was made of a header and what the header shall become opens
/// it: where `key` is `header` XOR-ed against `reference`, `header` XOR-ed
/// against `key` is `reference`.
pub proof fn lemma_xor_header_opens(reference: Seq<u8>, header: Seq<u8>)
    requires
        reference.len() == HEADER_LENGTH,
        header.len() == HEADER_LENGTH,
    ensures
        xor_header(xor_header(reference, header), header) == reference,
{
    let key = xor_header(reference, header);
    let opened = xor_header(key, header);
    assert forall|i: int| 0 <= i < HEADER_LENGTH implies opened[i] == reference[i] by {
        let h = header[i];
        let r = reference[i];
        assert(h ^ (h ^ r) == r) by (bit_vector);
    }
}

/// The transform keeps the length, and every byte past the header.
pub proof fn lemma_xor_header_keeps_tail(key: Seq<u8>, data: Seq<u8>)
    ensures
        xor_header(key, data).len() == data.len(),
        forall|i: int| HEADER_LENGTH <= i < data.len() ==> xor_header(key, data)[i] == data[i],
{
}

/// An asset with the marker in front has the marker, and its payload behind it.
pub proof fn lemma_with_marker(payload: Seq<u8>)
    ensures
        has_marker(with_marker(payload)),
        payload_of(with_marker(payload)) == payload,
{
    let file = with_marker(payload);
    assert(file.subrange(0, HEADER_LENGTH as int) =~= RPGM_HEADER@);
}

/// An asset that has the marker is the marker followed by its payload.
pub proof fn lemma_marker_then_payload(file: Seq<u8>)
    requires
        has_marker(file),
    ensures
        with_marker(payload_of(file)) == file,
{
}

/// Whether `file` begins with the marker.
pub fn starts_with_marker(file: &[u8]) -> (b: bool)
    ensures
        b == has_marker(file@),
{
    if file.len() < HEADER_LENGTH {
        return false;
    }
    let mut i: usize = 0;
    while i < HEADER_LENGTH
        invariant
            i <= HEADER_LENGTH,
            file@.len() >= HEADER_LENGTH,
            forall|j: int| 0 <= j < i ==> file@[j] == RPGM_HEADER@[j],
        decreases HEADER_LENGTH - i,
    {
        if file[i] != RPGM_HEADER[i] {
            return false;
        }
        i += 1;
    }
    assert(file@.subrange(0, HEADER_LENGTH as int) =~= RPGM_HEADER@);
    true
}

/// XORs the header of the payload that begins at `start` against `key`, in
/// place. What lies before `start` is not touched.
pub fn xor_in_place(key: &[u8; 16], buffer: &mut [u8], start: usize)
    requires
        start <= old(buffer)@.len(),
    ensures
        final(buffer)@ == old(buffer)@.take(start as int) + xor_header(
            key@,
            old(buffer)@.skip(start as int),
        ),
{
    let rest: usize = buffer.len() - start;
    let n: usize = if rest < HEADER_LENGTH {
        rest
    } else {
        HEADER_LENGTH
    };
    let mut i: usize = 0;
    while i < n
        invariant
            i <= n <= HEADER_LENGTH,
            start + n <= buffer@.len() <= usize::MAX,
            buffer@.len() == old(buffer)@.len(),
            n == HEADER_LENGTH || start + n == buffer@.len(),
            forall|j: int| 0 <= j < start ==> buffer@[j] == old(buffer)@[j],
            forall|j: int| 0 <= j < i ==> buffer@[start + j] == old(buffer)@[start + j] ^ key@[j],
            forall|j: int| start + i <= j < buffer@.len() ==> buffer@[j] == old(buffer)@[j],
        decreases n - i,
    {
        buffer[start + i] = buffer[start + i] ^ key[i];
        i += 1;
    }
    assert(buffer@ =~= old(buffer)@.take(start as int) + xor_header(
        key@,
        old(buffer)@.skip(start as int),
    ));
}

} // verus!
