use vstd::prelude::*;

verus! {

/// Whether bit `b` (0..64) of `word` is set.
pub open spec fn word_bit(word: u64, b: u64) -> bool {
    (word >> b) & 1u64 == 1u64
}

/// A fixed-capacity set of small integers stored as a bitmap of 64-bit words.
pub struct BitSet {
    data: Vec<u64>,
}

impl BitSet {
    /// The membership of every index below the capacity.
    pub closed spec fn view(&self) -> Seq<bool> {
        Seq::new((self.data@.len() * 64) as nat, |i: int| word_bit(self.data@[i / 64], (i % 64) as u64))
    }

    /// Number of indices the set can hold.
    pub closed spec fn spec_capacity(&self) -> nat {
        (self.data@.len() * 64) as nat
    }

    /// The membership sequence covers exactly the capacity.
    pub proof fn lemma_view_len(&self)
        ensures
            self.view().len() == self.spec_capacity(),
    {
    }

    /// Creates a set with `size` words of storage (room for `64 * size` indices),
    /// all of them absent.
    pub fn new(size: usize) -> (set: BitSet)
        requires
            size * 64 <= usize::MAX,
        ensures
            set.spec_capacity() == size * 64,
            set.view() =~= Seq::new((size * 64) as nat, |i: int| false),
    {
        let mut set = BitSet { data: Vec::with_capacity(size) };
        let mut k: usize = 0;
        while k < size
            invariant
                k <= size,
                set.data@.len() == k,
                forall|j: int| 0 <= j < k ==> set.data@[j] == 0u64,
            decreases size - k,
        {
            set.data.push(0);
            k = k + 1;
        }
        proof {
            assert forall|i: int| 0 <= i < size * 64 implies !#[trigger] word_bit(set.data@[i / 64], (i % 64) as u64) by {
                let b = (i % 64) as u64;
                assert(((0u64 >> b) & 1u64) == 0u64) by (bit_vector);
            }
        }
        set
    }

    /// Number of indices the set can hold.
    pub fn capacity(&self) -> (c: usize)
        requires
            self.spec_capacity() <= usize::MAX,
        ensures
            c == self.spec_capacity(),
    {
        self.data.len() * 64
    }

    /// Grows the storage so that at least `new_size` indices fit; present
    /// indices stay present and new ones are absent.
    pub fn resize(&mut self, new_size: usize)
        requires
            new_size + 64 <= usize::MAX,
        ensures
            final(self).spec_capacity() >= new_size,
            final(self).spec_capacity() >= old(self).spec_capacity(),
            forall|i: int| 0 <= i < old(self).view().len() ==> final(self).view()[i] == old(self).view()[i],
            forall|i: int| old(self).view().len() <= i < final(self).view().len() ==> !final(self).view()[i],
            final(self).spec_capacity() == if old(self).spec_capacity() >= ((new_size + 63) / 64) * 64 {
                old(self).spec_capacity()
            } else {
                (((new_size + 63) / 64) * 64) as nat
            },
    {
        let words = (new_size + 63) / 64;
        let ghost old_data = self.data@;
        while self.data.len() < words
            invariant
                words * 64 >= new_size,
                self.data@.len() >= old_data.len(),
                words * 64 <= new_size + 63,
                self.data@.len() == old_data.len() || self.data@.len() <= words,
                old_data.len() >= words ==> self.data@.len() == old_data.len(),
                old_data.len() < words ==> self.data@.len() <= words,
                forall|j: int| 0 <= j < old_data.len() ==> self.data@[j] == old_data[j],
                forall|j: int| old_data.len() <= j < self.data@.len() ==> self.data@[j] == 0u64,
            decreases words - self.data@.len(),
        {
            self.data.push(0);
        }
        proof {
            assert forall|i: int| old_data.len() * 64 <= i < self.data@.len() * 64 implies
                !#[trigger] word_bit(self.data@[i / 64], (i % 64) as u64) by {
                let b = (i % 64) as u64;
                assert(((0u64 >> b) & 1u64) == 0u64) by (bit_vector);
            }
        }
    }

    /// Adds (`v == true`) or removes (`v == false`) index `i`.
    pub fn set(&mut self, i: usize, v: bool)
        requires
            i < old(self).spec_capacity(),
        ensures
            final(self).spec_capacity() == old(self).spec_capacity(),
            final(self).view() =~= old(self).view().update(i as int, v),
    {
        let w = i >> 6;
        let b = (i & 0x3F) as u64;
        proof {
            assert(i >> 6 == i / 64) by (bit_vector);
            assert(i & 0x3F == i % 64) by (bit_vector);
        }
        let ghost old_data = self.data@;
        let word = self.data[w];
        if v {
            self.data[w] = word | (1u64 << b);
        } else {
            self.data[w] = word & !(1u64 << b);
        }
        proof {
            let nw = self.data@[w as int];
            assert forall|c: u64| c < 64 implies #[trigger] word_bit(nw, c) == (if c == b { v } else { word_bit(word, c) }) by {
                if v {
                    assert(nw == word | (1u64 << b));
                    assert(b < 64 ==> (((word | (1u64 << b)) >> c) & 1u64 == 1u64) == (if c == b { true } else { (word >> c) & 1u64 == 1u64 })) by (bit_vector);
                } else {
                    assert(nw == word & !(1u64 << b));
                    assert(b < 64 ==> (((word & !(1u64 << b)) >> c) & 1u64 == 1u64) == (if c == b { false } else { (word >> c) & 1u64 == 1u64 })) by (bit_vector);
                }
            }
            assert forall|k: int| 0 <= k < self.data@.len() * 64 implies
                #[trigger] self.view()[k] == old(self).view().update(i as int, v)[k] by {
                let kc = (k % 64) as u64;
                if k / 64 == w as int {
                    assert(word_bit(nw, kc) == (if kc == b { v } else { word_bit(word, kc) }));
                    if kc == b {
                        assert(k == i as int);
                    }
                } else {
                    assert(k != i as int);
                }
            }
        }
    }

    /// Whether index `i` is present.
    pub fn get(&mut self, i: usize) -> (b: bool)
        requires
            i < old(self).spec_capacity(),
        ensures
            *final(self) == *old(self),
            b == old(self).view()[i as int],
    {
        proof {
            assert(i >> 6 == i / 64) by (bit_vector);
            assert(i & 0x3F == i % 64) by (bit_vector);
        }
        let word = self.data[i >> 6];
        let b = (i & 0x3F) as u64;
        proof {
            assert(b < 64 ==> ((word & (1u64 << b)) != 0) == ((word >> b) & 1u64 == 1u64)) by (bit_vector);
        }
        (word & (1u64 << b)) != 0
    }

    /// Whether every index present in `other` is present here, comparing only
    /// the indices that both sets have room for.
    pub fn includes_set(&self, other: &BitSet) -> (b: bool)
        ensures
            b == (forall|k: int|
                0 <= k < self.spec_capacity() && k < other.spec_capacity() && #[trigger] other@[k] ==> self@[k]),
    {
        let n = if self.data.len() < other.data.len() { self.data.len() } else { other.data.len() };
        let mut w: usize = 0;
        while w < n
            invariant
                n <= self.data@.len(),
                n <= other.data@.len(),
                n == self.data@.len() || n == other.data@.len(),
                w <= n,
                forall|k: int| 0 <= k < w * 64 && #[trigger] other@[k] ==> self@[k],
            decreases n - w,
        {
            let a = self.data[w];
            let bw = other.data[w];
            if a & bw != bw {
                proof {
                    lemma_missing_bit(a, bw);
                    let c = choose|c: u64| c < 64 && word_bit(bw, c) && !word_bit(a, c);
                    let k = w * 64 + c;
                    assert(k / 64 == w as int && k % 64 == c as int);
                    assert(other@[k as int] && !self@[k as int]);
                }
                return false;
            }
            proof {
                assert forall|k: int| 0 <= k < (w + 1) * 64 && #[trigger] other@[k] implies self@[k] by {
                    if k >= w * 64 {
                        let c = (k % 64) as u64;
                        assert(k / 64 == w as int);
                        lemma_included_bit(a, bw, c);
                    }
                }
            }
            w = w + 1;
        }
        true
    }

    /// Adds every index of `other` that this set has room for.
    pub fn or(&mut self, other: &BitSet)
        ensures
            final(self).spec_capacity() == old(self).spec_capacity(),
            forall|k: int| 0 <= k < old(self).spec_capacity() ==>
                #[trigger] final(self)@[k] == (old(self)@[k] || (k < other.spec_capacity() && other@[k])),
    {
        let n = if self.data.len() < other.data.len() { self.data.len() } else { other.data.len() };
        let ghost old_data = self.data@;
        let mut w: usize = 0;
        while w < n
            invariant
                n <= self.data@.len(),
                n <= other.data@.len(),
                n == self.data@.len() || n == other.data@.len(),
                self.data@.len() == old_data.len(),
                w <= n,
                forall|j: int| 0 <= j < w ==> #[trigger] self.data@[j] == (old_data[j] | other.data@[j]),
                forall|j: int| w <= j < old_data.len() ==> #[trigger] self.data@[j] == old_data[j],
            decreases n - w,
        {
            let a = self.data[w];
            self.data.set(w, a | other.data[w]);
            w = w + 1;
        }
        proof {
            assert forall|k: int| 0 <= k < old(self).spec_capacity() implies
                #[trigger] self@[k] == (old(self)@[k] || (k < other.spec_capacity() && other@[k])) by {
                let j = k / 64;
                let c = (k % 64) as u64;
                if j < n {
                    lemma_or_bit(old_data[j], other.data@[j], c);
                } else {
                    assert(!(k < other.spec_capacity()));
                }
            }
        }
    }
}

impl Clone for BitSet {
    fn clone(&self) -> (c: Self)
        ensures
            c.spec_capacity() == self.spec_capacity(),
            c@ == self@,
    {
        let c = BitSet { data: self.data.clone() };
        proof {
            assert(c.data@ =~= self.data@);
        }
        c
    }
}

proof fn lemma_included_bit(a: u64, b: u64, c: u64)
    by (bit_vector)
    requires
        c < 64,
        a & b == b,
    ensures
        (b >> c) & 1u64 == 1u64 ==> (a >> c) & 1u64 == 1u64,
{
}

proof fn lemma_next_set_bit(x: u64, c: u64)
    by (bit_vector)
    requires
        c < 64,
        x >> c != 0,
        (x >> c) & 1u64 != 1u64,
    ensures
        c < 63,
        x >> ((c + 1) as u64) != 0,
{
}

/// A word whose bits from `c` up are not all clear has a set bit there.
proof fn lemma_set_bit_from(x: u64, c: u64) -> (k: u64)
    requires
        c < 64,
        x >> c != 0,
    ensures
        c <= k < 64,
        word_bit(x, k),
    decreases 64 - c,
{
    if (x >> c) & 1u64 == 1u64 {
        c
    } else {
        lemma_next_set_bit(x, c);
        lemma_set_bit_from(x, (c + 1) as u64)
    }
}

proof fn lemma_and_not_bit(a: u64, b: u64, c: u64)
    by (bit_vector)
    requires
        c < 64,
    ensures
        a & b != b ==> (b & !a) >> 0u64 != 0,
        ((b & !a) >> c) & 1u64 == 1u64 ==> (b >> c) & 1u64 == 1u64 && (a >> c) & 1u64 != 1u64,
{
}

/// When `b` has a bit that `a` lacks, there is such a bit.
proof fn lemma_missing_bit(a: u64, b: u64)
    requires
        a & b != b,
    ensures
        exists|c: u64| c < 64 && word_bit(b, c) && !word_bit(a, c),
{
    lemma_and_not_bit(a, b, 0);
    let k = lemma_set_bit_from(b & !a, 0);
    lemma_and_not_bit(a, b, k);
    assert(word_bit(b, k) && !word_bit(a, k));
}

proof fn lemma_or_bit(a: u64, b: u64, c: u64)
    by (bit_vector)
    requires
        c < 64,
    ensures
        (((a | b) >> c) & 1u64 == 1u64) == (((a >> c) & 1u64 == 1u64) || ((b >> c) & 1u64 == 1u64)),
{
}

} // verus!
