use vstd::prelude::*;

verus! {

/// The four little-endian bytes of a 32-bit word.
pub open spec fn le_bytes(w: u32) -> Seq<u8> {
    seq![
        (w % 0x100) as u8,
        (w / 0x100 % 0x100) as u8,
        (w / 0x1_0000 % 0x100) as u8,
        (w / 0x100_0000) as u8,
    ]
}

/// The word whose little-endian bytes start at `at` in `b`.
pub open spec fn le_word(b: Seq<u8>, at: int) -> u32 {
    (b[at] + 0x100 * b[at + 1] + 0x1_0000 * b[at + 2] + 0x100_0000 * b[at + 3]) as u32
}

/// A stored embedding: each 32-bit float, given by its bit pattern, as four
/// little-endian bytes, in order.
pub open spec fn is_encoding(words: Seq<u32>, bytes: Seq<u8>) -> bool {
    &&& bytes.len() == 4 * words.len()
    &&& forall|i: int| 0 <= i < words.len() ==> #[trigger] bytes.subrange(4 * i, 4 * i + 4) == le_bytes(words[i])
}

proof fn lemma_word_of_bytes(w: u32)
    ensures
        le_word(le_bytes(w), 0) == w,
{
    let b0 = w % 0x100;
    let b1 = w / 0x100 % 0x100;
    let b2 = w / 0x1_0000 % 0x100;
    let b3 = w / 0x100_0000;
    assert(b0 + 0x100 * b1 + 0x1_0000 * b2 + 0x100_0000 * b3 == w) by (bit_vector)
        requires
            b0 == w % 0x100,
            b1 == w / 0x100 % 0x100,
            b2 == w / 0x1_0000 % 0x100,
            b3 == w / 0x100_0000,
    ;
}

/// The bytes in which an embedding is stored.
pub fn encode_embedding(words: &Vec<u32>) -> (r: Vec<u8>)
    ensures
        is_encoding(words@, r@),
{
    let mut r: Vec<u8> = Vec::new();
    let mut i: usize = 0;
    while i < words.len()
        invariant
            i <= words@.len(),
            r@.len() == 4 * i,
            forall|k: int| 0 <= k < i ==> #[trigger] r@.subrange(4 * k, 4 * k + 4) == le_bytes(words@[k]),
        decreases words@.len() - i,
    {
        let w = words[i];
        let ghost before = r@;
        r.push((w % 0x100) as u8);
        r.push((w / 0x100 % 0x100) as u8);
        r.push((w / 0x1_0000 % 0x100) as u8);
        r.push((w / 0x100_0000) as u8);
        proof {
            assert forall|k: int| 0 <= k < i + 1 implies #[trigger] r@.subrange(4 * k, 4 * k + 4) == le_bytes(
                words@[k],
            ) by {
                if k < i {
                    assert(r@.subrange(4 * k, 4 * k + 4) =~= before.subrange(4 * k, 4 * k + 4));
                } else {
                    assert(r@.subrange(4 * k, 4 * k + 4) =~= le_bytes(w));
                }
            }
        }
        i = i + 1;
    }
    r
}

/// The embedding stored in `bytes`; none where the length is not a whole
/// number of 32-bit words.
pub fn decode_embedding(bytes: &Vec<u8>) -> (r: Option<Vec<u32>>)
    ensures
        r is Some <==> bytes@.len() % 4 == 0,
        r matches Some(words) ==> is_encoding(words@, bytes@),
{
    if bytes.len() % 4 != 0 {
        return None;
    }
    let len = bytes.len();
    let n = len / 4;
    let mut words: Vec<u32> = Vec::new();
    let mut i: usize = 0;
    while i < n
        invariant
            i <= n,
            len == bytes@.len(),
            n * 4 == len,
            words@.len() == i,
            forall|k: int| 0 <= k < i ==> #[trigger] bytes@.subrange(4 * k, 4 * k + 4) == le_bytes(words@[k]),
        decreases n - i,
    {
        let b0 = bytes[4 * i] as u32;
        let b1 = bytes[4 * i + 1] as u32;
        let b2 = bytes[4 * i + 2] as u32;
        let b3 = bytes[4 * i + 3] as u32;
        let w: u32 = b0 + 0x100 * b1 + 0x1_0000 * b2 + 0x100_0000 * b3;
        proof {
            assert(w % 0x100 == b0 && w / 0x100 % 0x100 == b1 && w / 0x1_0000 % 0x100 == b2 && w
                / 0x100_0000 == b3) by (bit_vector)
                requires
                    b0 < 0x100,
                    b1 < 0x100,
                    b2 < 0x100,
                    b3 < 0x100,
                    w == b0 + 0x100 * b1 + 0x1_0000 * b2 + 0x100_0000 * b3,
            ;
            assert(bytes@.subrange(4 * i, 4 * i + 4) =~= le_bytes(w));
        }
        words.push(w);
        i = i + 1;
    }
    Some(words)
}

/// Decoding undoes encoding: the stored bytes give back exactly the
/// embedding that was stored.
pub proof fn lemma_decode_encoded(words: Seq<u32>, bytes: Seq<u8>, decoded: Seq<u32>)
    requires
        is_encoding(words, bytes),
        is_encoding(decoded, bytes),
    ensures
        bytes.len() % 4 == 0,
        decoded == words,
{
    assert(decoded.len() == words.len());
    assert forall|i: int| 0 <= i < words.len() implies decoded[i] == words[i] by {
        let chunk = bytes.subrange(4 * i, 4 * i + 4);
        assert(chunk == le_bytes(words[i]));
        assert(chunk == le_bytes(decoded[i]));
        lemma_word_of_bytes(words[i]);
        lemma_word_of_bytes(decoded[i]);
    }
    assert(decoded =~= words);
}

} // verus!
