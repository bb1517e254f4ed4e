use vstd::prelude::*;

verus! {

/// The nibble at `idx` in a sequence of bytes: the low four bits of byte
/// `idx / 2` where `idx` is even, its high four bits where `idx` is odd.
pub open spec fn nibble_at(bytes: Seq<u8>, idx: int) -> u8 {
    if idx % 2 == 0 {
        bytes[idx / 2] & 0xF
    } else {
        bytes[idx / 2] >> 4
    }
}

/// The nibbles that a sequence of bytes holds, two for each byte.
pub open spec fn nibbles_of(bytes: Seq<u8>) -> Seq<u8> {
    Seq::new((bytes.len() * 2) as nat, |idx: int| nibble_at(bytes, idx))
}

/// The number of bytes that hold `size` nibbles.
pub open spec fn bytes_for(size: int) -> int {
    (size + 1) / 2
}

proof fn lemma_index_halves(idx: usize)
    ensures
        (idx >> 1) == idx / 2,
        (idx & 1 == 0) == (idx % 2 == 0),
{
    assert((idx >> 1) == idx / 2 && (idx & 1 == 0) == (idx % 2 == 0)) by (bit_vector);
}

proof fn lemma_pack(byte: u8, val: u8)
    ensures
        ((byte & 0xF0) | (val & 0xF)) & 0xF == val & 0xF,
        ((byte & 0xF0) | (val & 0xF)) >> 4 == byte >> 4,
        ((byte & 0x0F) | ((val & 0xF) << 4)) & 0xF == byte & 0xF,
        ((byte & 0x0F) | ((val & 0xF) << 4)) >> 4 == val & 0xF,
        (val & 0xF) < 16,
        (byte >> 4) < 16,
{
    assert({
        &&& ((byte & 0xF0) | (val & 0xF)) & 0xF == val & 0xF
        &&& ((byte & 0xF0) | (val & 0xF)) >> 4 == byte >> 4
        &&& ((byte & 0x0F) | ((val & 0xF) << 4)) & 0xF == byte & 0xF
        &&& ((byte & 0x0F) | ((val & 0xF) << 4)) >> 4 == val & 0xF
        &&& (val & 0xF) < 16
        &&& (byte >> 4) < 16
    }) by (bit_vector);
}

/// A fixed-capacity array of 4-bit values, packed two to a byte with the
/// even index in the low half.
#[derive(Clone)]
pub struct Array {
    pub data: Vec<u8>,
}

impl View for Array {
    type V = Seq<u8>;

    /// The nibbles, one per index; there are two for each byte.
    open spec fn view(&self) -> Seq<u8> {
        nibbles_of(self.data@)
    }
}

impl Array {
    /// An array that holds `size` nibbles, all of them zero.
    pub fn new(size: usize) -> (array: Array)
        requires
            size < usize::MAX,
        ensures
            array.data@.len() == bytes_for(size as int),
            forall|idx: int| 0 <= idx < array@.len() ==> array@[idx] == 0,
    {
        proof {
            lemma_index_halves((size + 1) as usize);
        }
        let array = Array { data: vec![0; (size + 1) >> 1] };
        assert forall|idx: int| 0 <= idx < array@.len() implies array@[idx] == 0 by {
            assert(0u8 & 0xF == 0 && 0u8 >> 4 == 0) by (bit_vector);
        }
        array
    }

    /// An array that holds `size` nibbles, all of them the low four bits of
    /// `def`.
    pub fn new_def(size: usize, def: u8) -> (array: Array)
        requires
            size < usize::MAX,
        ensures
            array.data@.len() == bytes_for(size as int),
            forall|idx: int| 0 <= idx < array@.len() ==> array@[idx] == def & 0xF,
    {
        proof {
            lemma_index_halves((size + 1) as usize);
        }
        let both: u8 = (def & 0xF) | ((def & 0xF) << 4);
        let array = Array { data: vec![both; (size + 1) >> 1] };
        assert forall|idx: int| 0 <= idx < array@.len() implies array@[idx] == def & 0xF by {
            assert(((def & 0xF) | ((def & 0xF) << 4)) & 0xF == def & 0xF && ((def & 0xF) | ((def
                & 0xF) << 4)) >> 4 == def & 0xF) by (bit_vector);
        }
        array
    }

    /// The nibble at `idx`.
    pub fn get(&self, idx: usize) -> (val: u8)
        requires
            idx < self@.len(),
        ensures
            val == self@[idx as int],
            val < 16,
    {
        proof {
            lemma_index_halves(idx);
        }
        let val: u8 = self.data[idx >> 1];
        proof {
            lemma_pack(val, val);
        }
        if idx & 1 == 0 {
            val & 0xF
        } else {
            val >> 4
        }
    }

    /// Writes the low four bits of `val` at `idx` and leaves every other
    /// nibble, the one in the same byte too, as it was.
    pub fn set(&mut self, idx: usize, val: u8)
        requires
            idx < old(self)@.len(),
        ensures
            final(self)@ == old(self)@.update(idx as int, val & 0xF),
    {
        proof {
            lemma_index_halves(idx);
        }
        let i: usize = idx >> 1;
        let byte: u8 = self.data[i];
        proof {
            lemma_pack(byte, val);
        }
        if idx & 1 == 0 {
            self.data[i] = (byte & 0xF0) | (val & 0xF);
        } else {
            self.data[i] = (byte & 0x0F) | ((val & 0xF) << 4);
        }
        assert(self@ =~= old(self)@.update(idx as int, val & 0xF));
    }
}

/// A nibble that was written reads as the low four bits of what was written,
/// and no other nibble changes.
pub proof fn lemma_nibble_set_then_get(nibbles: Seq<u8>, idx: int, val: u8)
    requires
        0 <= idx < nibbles.len(),
    ensures
        nibbles.update(idx, val & 0xF)[idx] == val & 0xF,
        forall|j: int|
            0 <= j < nibbles.len() && j != idx ==> nibbles.update(idx, val & 0xF)[j] == nibbles[j],
{
}

} // verus!
