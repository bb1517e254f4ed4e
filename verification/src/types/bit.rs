use vstd::prelude::*;

verus! {

/// Whether bit `k` of a word is set, for `0 <= k < 64`.
pub open spec fn word_bit(w: u64, k: int) -> bool {
    (w >> (k as u64)) & 1 == 1
}

/// Bit `i` of a sequence of words: bit `i % 64` of word `i / 64`.
pub open spec fn bit_at(words: Seq<u64>, i: int) -> bool {
    word_bit(words[i / 64], i % 64)
}

/// The bits that a sequence of words holds, 64 for each word.
pub open spec fn bits_of(words: Seq<u64>) -> Seq<bool> {
    Seq::new((words.len() * 64) as nat, |i: int| bit_at(words, i))
}

/// The number of 64-bit words that hold `size` bits.
pub open spec fn words_for(size: int) -> int {
    (size + 63) / 64
}

/// The smaller of two lengths.
pub open spec fn shorter(a: int, b: int) -> int {
    if a <= b {
        a
    } else {
        b
    }
}

/// The bits of `a` after every bit of `b` within the length of `a` was set
/// in it as well.
pub open spec fn bits_or(a: Seq<bool>, b: Seq<bool>) -> Seq<bool> {
    Seq::new(a.len(), |i: int| a[i] || (i < b.len() && b[i]))
}

/// Whether, as far as both go, every bit set in `b` is set in `a`.
pub open spec fn bits_include(a: Seq<bool>, b: Seq<bool>) -> bool {
    forall|i: int| 0 <= i < shorter(a.len() as int, b.len() as int) ==> (b[i] ==> a[i])
}

proof fn lemma_index_split(i: usize)
    ensures
        (i >> 6) == i / 64,
        (i & 0x3F) == i % 64,
        (i & 0x3F) < 64,
{
    assert((i >> 6) == i / 64 && (i & 0x3F) == i % 64) by (bit_vector);
}

proof fn lemma_zero_word(k: u64)
    requires
        k < 64,
    ensures
        !word_bit(0, k as int),
{
    assert((0u64 >> k) & 1 != 1) by (bit_vector);
}

proof fn lemma_set_bit(w: u64, k: u64, j: u64)
    requires
        k < 64,
        j < 64,
    ensures
        word_bit(w | (1u64 << k), j as int) == (j == k || word_bit(w, j as int)),
        word_bit(w & !(1u64 << k), j as int) == (j != k && word_bit(w, j as int)),
{
    assert({
        &&& (((w | (1u64 << k)) >> j) & 1 == 1) == (j == k || ((w >> j) & 1 == 1))
        &&& (((w & !(1u64 << k)) >> j) & 1 == 1) == (j != k && ((w >> j) & 1 == 1))
    }) by (bit_vector)
        requires
            k < 64,
            j < 64,
    ;
}

proof fn lemma_or_bit(a: u64, b: u64, k: u64)
    requires
        k < 64,
    ensures
        word_bit(a | b, k as int) == (word_bit(a, k as int) || word_bit(b, k as int)),
{
    assert(((((a | b) >> k) & 1) == 1) == ((((a >> k) & 1) == 1) || (((b >> k) & 1) == 1)))
        by (bit_vector);
}

/// A word that has no bit set below `n` has none of its low `n` bits set.
proof fn lemma_low_bits_clear(x: u64, n: u64)
    requires
        n <= 64,
        forall|k: int| 0 <= k < n ==> !#[trigger] word_bit(x, k),
    ensures
        n < 64 ==> x & (((1u64 << n) - 1) as u64) == 0,
        n == 64 ==> x == 0,
    decreases n,
{
    if n == 0 {
        assert(x & (((1u64 << 0) - 1) as u64) == 0) by (bit_vector);
    } else {
        let m = (n - 1) as u64;
        lemma_low_bits_clear(x, m);
        assert(!word_bit(x, m as int));
        if n < 64 {
            assert(x & (((1u64 << n) - 1) as u64) == 0) by (bit_vector)
                requires
                    n < 64,
                    m == n - 1,
                    x & (((1u64 << m) - 1) as u64) == 0,
                    (x >> m) & 1 != 1,
            ;
        } else {
            assert(x == 0) by (bit_vector)
                requires
                    m == 63,
                    x & (((1u64 << m) - 1) as u64) == 0,
                    (x >> m) & 1 != 1,
            ;
        }
    }
}

/// `a & b == b` says that every bit of `b` is a bit of `a`.
proof fn lemma_word_includes(a: u64, b: u64)
    ensures
        (a & b == b) <==> (forall|k: int| 0 <= k < 64 ==> (#[trigger] word_bit(b, k) ==> word_bit(a, k))),
{
    if a & b == b {
        assert forall|k: int| 0 <= k < 64 && #[trigger] word_bit(b, k) implies word_bit(a, k) by {
            let kk = k as u64;
            assert(((b >> kk) & 1 == 1) ==> ((a >> kk) & 1 == 1)) by (bit_vector)
                requires
                    a & b == b,
                    kk < 64,
            ;
        }
    } else if forall|k: int| 0 <= k < 64 ==> (#[trigger] word_bit(b, k) ==> word_bit(a, k)) {
        let x = b & !a;
        assert forall|k: int| 0 <= k < 64 implies !#[trigger] word_bit(x, k) by {
            let kk = k as u64;
            assert(word_bit(b, k) ==> word_bit(a, k));
            assert(((((b & !a) >> kk) & 1) == 1) == ((((b >> kk) & 1) == 1) && !(((a >> kk) & 1)
                == 1))) by (bit_vector)
                requires
                    kk < 64,
            ;
        }
        lemma_low_bits_clear(x, 64);
        assert(a & b == b) by (bit_vector)
            requires
                b & !a == 0,
        ;
    }
}

proof fn lemma_test_bit(w: u64, k: u64)
    requires
        k < 64,
    ensures
        (w & (1u64 << k) != 0) == word_bit(w, k as int),
{
    assert((w & (1u64 << k) != 0) == ((w >> k) & 1 == 1)) by (bit_vector)
        requires
            k < 64,
    ;
}

/// A fixed-capacity vector of bits, kept in 64-bit words.
#[derive(Debug)]
pub struct BitSet {
    data: Vec<u64>,
}

impl Clone for BitSet {
    fn clone(&self) -> (set: BitSet)
        ensures
            set@ == self@,
    {
        proof {
            use_type_invariant(self);
        }
        BitSet { data: self.data.clone() }
    }
}

impl View for BitSet {
    type V = Seq<bool>;

    /// The bits, one per index; there are 64 for each word.
    closed spec fn view(&self) -> Seq<bool> {
        bits_of(self.data@)
    }
}

impl BitSet {
    #[verifier::type_invariant]
    spec fn fits(&self) -> bool {
        self.data@.len() * 64 <= usize::MAX
    }

    /// A set of `size` bits, rounded up to whole words, all of them clear.
    pub fn new(size: usize) -> (set: BitSet)
        requires
            size + 63 <= usize::MAX,
        ensures
            set@.len() == 64 * words_for(size as int),
            forall|i: int| 0 <= i < set@.len() ==> !set@[i],
    {
        let set = BitSet { data: vec![0; (size + 63) / 64] };
        assert forall|i: int| 0 <= i < set@.len() implies !set@[i] by {
            lemma_zero_word((i % 64) as u64);
        }
        set
    }

    /// Grows or shrinks the set to `new_size` bits, rounded up to whole
    /// words. Bits below both capacities keep their values; new bits are
    /// clear.
    pub fn resize(&mut self, new_size: usize)
        requires
            new_size + 63 <= usize::MAX,
        ensures
            final(self)@.len() == 64 * words_for(new_size as int),
            forall|i: int|
                0 <= i < shorter(old(self)@.len() as int, final(self)@.len() as int)
                    ==> final(self)@[i] == old(self)@[i],
            forall|i: int| old(self)@.len() <= i < final(self)@.len() ==> !final(self)@[i],
    {
        let ghost before = self.data@;
        let mut data = self.data.clone();
        data.resize((new_size + 63) / 64, 0);
        self.data = data;
        proof {
            let after = self.data@;
            assert forall|i: int| before.len() * 64 <= i < after.len() * 64 implies !bit_at(
                after,
                i,
            ) by {
                lemma_zero_word((i % 64) as u64);
            }
        }
    }

    /// The number of bits the set holds.
    pub fn capacity(&self) -> (n: usize)
        ensures
            n == self@.len(),
    {
        proof {
            use_type_invariant(self);
        }
        self.data.len() * 64
    }

    /// Sets bit `i` to `v` and leaves every other bit as it was.
    pub fn set(&mut self, i: usize, v: bool)
        requires
            i < old(self)@.len(),
        ensures
            final(self)@ == old(self)@.update(i as int, v),
    {
        proof {
            use_type_invariant(&*self);
            lemma_index_split(i);
        }
        let ghost before = self.data@;
        let w: usize = i >> 6;
        let k: u64 = (i & 0x3F) as u64;
        let word: u64 = self.data[w];
        if v {
            self.data[w] = word | (1u64 << k);
        } else {
            self.data[w] = word & !(1u64 << k);
        }
        proof {
            let after = self.data@;
            assert forall|j: int| 0 <= j < before.len() * 64 implies bit_at(after, j) == (if j
                == i {
                v
            } else {
                bit_at(before, j)
            }) by {
                if j / 64 == w {
                    lemma_set_bit(word, k, (j % 64) as u64);
                }
            }
            assert(self@ =~= old(self)@.update(i as int, v));
        }
    }

    /// Whether bit `i` is set.
    pub fn get(&self, i: usize) -> (b: bool)
        requires
            i < self@.len(),
        ensures
            b == self@[i as int],
    {
        proof {
            lemma_index_split(i);
            lemma_test_bit(self.data@[i as int / 64], (i % 64) as u64);
        }
        (self.data[i >> 6] & (1u64 << ((i & 0x3F) as u64))) != 0
    }

    /// Whether every bit set in `other` is also set in `self`, as far as both
    /// sets go: the bits of the longer set beyond the shorter one are not
    /// looked at.
    pub fn includes_set(&self, other: &BitSet) -> (b: bool)
        ensures
            b == bits_include(self@, other@),
    {
        let n = if self.data.len() <= other.data.len() {
            self.data.len()
        } else {
            other.data.len()
        };
        let mut w: usize = 0;
        while w < n
            invariant
                w <= n,
                n == shorter(self.data@.len() as int, other.data@.len() as int),
                forall|i: int| 0 <= i < w * 64 ==> (other@[i] ==> self@[i]),
            decreases n - w,
        {
            let a: u64 = self.data[w];
            let b: u64 = other.data[w];
            proof {
                lemma_word_includes(a, b);
            }
            if a & b != b {
                proof {
                    let k = choose|k: int| 0 <= k < 64 && word_bit(b, k) && !word_bit(a, k);
                    let i = w * 64 + k;
                    assert(other@[i] && !self@[i]);
                }
                return false;
            }
            assert forall|i: int| 0 <= i < (w + 1) * 64 && other@[i] implies self@[i] by {
                if i >= w * 64 {
                    assert(word_bit(b, i % 64));
                }
            }
            w += 1;
        }
        true
    }

    /// Sets in `self` every bit that is set in `other`, as far as `self`
    /// goes.
    pub fn or(&mut self, other: &BitSet)
        ensures
            final(self)@ == bits_or(old(self)@, other@),
    {
        let n = if self.data.len() <= other.data.len() {
            self.data.len()
        } else {
            other.data.len()
        };
        proof {
            use_type_invariant(&*self);
        }
        let ghost before = self.data@;
        let mut w: usize = 0;
        while w < n
            invariant
                w <= n,
                n == shorter(before.len() as int, other.data@.len() as int),
                self.data@.len() == before.len(),
                before.len() * 64 <= usize::MAX,
                forall|j: int| 0 <= j < w ==> self.data@[j] == before[j] | other.data@[j],
                forall|j: int| w <= j < before.len() ==> self.data@[j] == before[j],
            decreases n - w,
        {
            let a: u64 = self.data[w];
            let b: u64 = other.data[w];
            self.data[w] = a | b;
            w += 1;
        }
        proof {
            let after = self.data@;
            assert forall|i: int| 0 <= i < before.len() * 64 implies bit_at(after, i) == (bit_at(
                before,
                i,
            ) || (i < other.data@.len() * 64 && bit_at(other.data@, i))) by {
                if i / 64 < n {
                    lemma_or_bit(before[i / 64], other.data@[i / 64], (i % 64) as u64);
                }
            }
            assert(self@ =~= bits_or(old(self)@, other@));
        }
    }
}

/// A bit that was set reads as set, one that was cleared reads as clear, and
/// no other bit changes.
pub proof fn lemma_set_then_get(bits: Seq<bool>, i: int, v: bool)
    requires
        0 <= i < bits.len(),
    ensures
        bits.update(i, v)[i] == v,
        forall|j: int| 0 <= j < bits.len() && j != i ==> bits.update(i, v)[j] == bits[j],
{
}

/// After `b` was or-ed into `a`, `a` includes `b`.
pub proof fn lemma_or_then_includes(a: Seq<bool>, b: Seq<bool>)
    ensures
        bits_include(bits_or(a, b), b),
{
}

} // verus!
