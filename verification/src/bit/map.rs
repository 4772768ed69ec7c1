use vstd::prelude::*;

verus! {

/// The mask selecting the low `size` bits of a word.
pub open spec fn field_mask(size: u64) -> u64 {
    ((1u64 << size) - 1) as u64
}

/// The value stored in the `size`-bit field that starts at bit `off` of `word`
/// (bits past the end of the word read as zero).
pub open spec fn field_at(word: u64, off: u64, size: u64) -> u64 {
    (word >> off) & field_mask(size)
}

/// `word` with the field at `off` cleared and `val` written there.
pub open spec fn store_field(word: u64, off: u64, size: u64, val: u64) -> u64 {
    (word & !(field_mask(size) << off)) | (val << off)
}

proof fn lemma_store_read_back(word: u64, off: u64, size: u64, val: u64)
    by (bit_vector)
    requires
        size < 64,
        off < 64,
        off + size <= 64,
        val <= ((1u64 << size) - 1) as u64,
    ensures
        ((((word & !((((1u64 << size) - 1) as u64) << off)) | (val << off)) >> off) & (((1u64 << size) - 1) as u64)) == val,
{
}

proof fn lemma_store_keeps_other(word: u64, off: u64, other: u64, size: u64, val: u64)
    by (bit_vector)
    requires
        size < 64,
        off < 64,
        other < 64,
        off + size <= other || other + size <= off,
        val <= ((1u64 << size) - 1) as u64,
    ensures
        ((((word & !((((1u64 << size) - 1) as u64) << off)) | (val << off)) >> other) & (((1u64 << size) - 1) as u64))
            == ((word >> other) & (((1u64 << size) - 1) as u64)),
{
}

/// When the entry width divides 64, no entry straddles two words.
proof fn lemma_aligned_fits(i: int, s: int)
    requires
        0 < s,
        64int % s == 0,
        0 <= i,
    ensures
        (i * s) % 64 + s <= 64,
{
    let x = i * s;
    let q = x / 64;
    let o = x % 64;
    let n = 64int / s;
    vstd::arithmetic::div_mod::lemma_fundamental_div_mod(x, 64);
    vstd::arithmetic::div_mod::lemma_fundamental_div_mod(64, s);
    assert(0 <= o < 64);
    let m = i - n * q;
    assert(o == s * m) by (nonlinear_arith)
        requires x == i * s, x == 64 * q + o, 64 == s * n, m == i - n * q;
    assert(0 <= m < n) by (nonlinear_arith)
        requires o == s * m, 0 <= o < 64, 64 == s * n, s > 0;
    assert(o + s <= 64) by (nonlinear_arith)
        requires o == s * m, m + 1 <= n, 64 == s * n, s > 0;
}

/// A fixed-length array of small unsigned integers, each `bit_size` bits wide,
/// packed into 64-bit words.
pub struct BitMap {
    bits: Vec<u64>,
    bit_size: usize,
    length: usize,
}

impl BitMap {
    /// The storage words.
    pub closed spec fn words(&self) -> Seq<u64> {
        self.bits@
    }

    /// Width in bits of each entry.
    pub closed spec fn entry_size(&self) -> nat {
        self.bit_size as nat
    }

    /// Number of entries the map was created with.
    pub closed spec fn len(&self) -> nat {
        self.length as nat
    }

    /// Index of the word that holds entry `i`.
    pub open spec fn word_of(&self, i: int) -> int {
        (i * self.entry_size()) / 64
    }

    /// Bit offset of entry `i` inside its word.
    pub open spec fn offset_of(&self, i: int) -> int {
        (i * self.entry_size()) % 64
    }

    /// Whether entry `i` can be read or written without leaving the storage.
    pub open spec fn addressable(&self, i: int) -> bool {
        &&& 0 <= i
        &&& i * self.entry_size() <= usize::MAX
        &&& self.word_of(i) < self.words().len()
    }

    /// Whether entry `i` lies wholly inside one word.
    pub open spec fn fits_in_word(&self, i: int) -> bool {
        self.offset_of(i) + self.entry_size() <= 64
    }

    /// The value of entry `i`, as `get` reads it.
    pub open spec fn entry(&self, i: int) -> u64 {
        field_at(self.words()[self.word_of(i)], self.offset_of(i) as u64, self.entry_size() as u64)
    }

    /// All entries below the length given at creation.
    pub open spec fn view(&self) -> Seq<u64> {
        Seq::new(self.len(), |i: int| self.entry(i))
    }

    proof fn lemma_entries_addressable(&self, i: int)
        requires
            self.entry_size() < 64,
            self.words().len() == self.len(),
            0 <= i < self.len(),
            self.len() * self.entry_size() <= usize::MAX,
        ensures
            self.addressable(i),
    {
        let s = self.entry_size() as int;
        assert(i * s <= self.len() * s) by (nonlinear_arith)
            requires 0 <= i < self.len(), 0 <= s;
        assert(i * s < 64 * (i + 1)) by (nonlinear_arith)
            requires 0 <= i, 0 <= s < 64;
        assert((i * s) / 64 <= i) by (nonlinear_arith)
            requires 0 <= i, 0 <= i * s < 64 * (i + 1);
    }

    /// Creates a map of `len` entries of `size` bits each, all zero.
    pub fn new(len: usize, size: usize) -> (map: BitMap)
        requires
            len * size <= usize::MAX,
        ensures
            map.len() == len,
            map.entry_size() == size,
            map.words() =~= Seq::new(len as nat, |j: int| 0u64),
            size < 64 ==> forall|i: int| 0 <= i < len ==> #[trigger] map.addressable(i),
            size < 64 ==> forall|i: int| 0 <= i < len ==> #[trigger] map.entry(i) == 0u64,
    {
        let mut map = BitMap { bits: Vec::with_capacity((len * size) / 64), bit_size: size, length: len };
        let mut k: usize = 0;
        while k < len
            invariant
                k <= len,
                map.bits@.len() == k,
                map.bit_size == size,
                map.length == len,
                forall|j: int| 0 <= j < k ==> map.bits@[j] == 0u64,
            decreases len - k,
        {
            map.bits.push(0);
            k = k + 1;
        }
        proof {
            if size < 64 {
                Self::lemma_new_is_zero(&map);
            }
        }
        map
    }

    /// Every entry of a freshly created map with entries narrower than a word
    /// is addressable and reads as zero.
    pub proof fn lemma_new_is_zero(map: &BitMap)
        requires
            map.entry_size() < 64,
            map.len() * map.entry_size() <= usize::MAX,
            map.words() =~= Seq::new(map.len(), |j: int| 0u64),
        ensures
            forall|i: int| 0 <= i < map.len() ==> #[trigger] map.addressable(i),
            forall|i: int| 0 <= i < map.len() ==> #[trigger] map.entry(i) == 0u64,
    {
        assert forall|i: int| 0 <= i < map.len() implies #[trigger] map.addressable(i) by {
            map.lemma_entries_addressable(i);
        }
        assert forall|i: int| 0 <= i < map.len() implies #[trigger] map.entry(i) == 0u64 by {
            map.lemma_entries_addressable(i);
            assert(map.addressable(i));
            assert(map.words()[map.word_of(i)] == 0u64);
            let off = map.offset_of(i) as u64;
            let sz = map.entry_size() as u64;
            assert(((0u64 >> off) & (((1u64 << sz) - 1) as u64)) == 0u64) by (bit_vector);
        }
    }

    /// Stores `val` in entry `i`: the field of entry `i` is cleared and
    /// `val` is or-ed in at its offset.
    pub fn set(&mut self, i: usize, val: usize)
        requires
            old(self).entry_size() < 64,
            old(self).addressable(i as int),
            val <= u64::MAX,
        ensures
            final(self).len() == old(self).len(),
            final(self).entry_size() == old(self).entry_size(),
            forall|j: int| #[trigger] final(self).addressable(j) == old(self).addressable(j),
            final(self).words() == old(self).words().update(
                old(self).word_of(i as int),
                store_field(
                    old(self).words()[old(self).word_of(i as int)],
                    old(self).offset_of(i as int) as u64,
                    old(self).entry_size() as u64,
                    val as u64,
                ),
            ),
            val < (1u64 << (old(self).entry_size() as u64))
                && (old(self).fits_in_word(i as int) || (0 < old(self).entry_size() && 64nat % old(self).entry_size() == 0))
                ==> final(self).entry(i as int) == val,
            val < (1u64 << (old(self).entry_size() as u64)) ==> forall|j: int|
                j != i && old(self).addressable(j) ==> #[trigger] final(self).entry(j) == old(self).entry(j),
    {
        let bit = i * self.bit_size;
        let pos = bit / 64;
        let size = self.bit_size as u64;
        let one_shl: u64 = 1u64 << size;
        proof {
            assert(1u64 << size >= 1) by (bit_vector) requires size < 64;
        }
        let mask: u64 = one_shl - 1;
        let off = (bit % 64) as u64;
        let word = self.bits[pos];
        self.bits[pos] = (word & !(mask << off)) | ((val as u64) << off);
        proof {
            assert(mask == field_mask(size));
            if 0 < size && 64nat % old(self).entry_size() == 0 {
                lemma_aligned_fits(i as int, size as int);
            }
            if val < (1u64 << size) {
                assert(val <= field_mask(size));
                if old(self).fits_in_word(i as int) {
                    lemma_store_read_back(word, off, size, val as u64);
                }
                assert forall|j: int| j != i && old(self).addressable(j) implies #[trigger] final(self).entry(j) == old(self).entry(j) by {
                    let wj = old(self).word_of(j);
                    if wj == pos as int {
                        let oj = old(self).offset_of(j) as u64;
                        let s = size as int;
                        // distinct entries occupy disjoint bit ranges
                        if j < i {
                            assert(j * s + s <= i * s) by (nonlinear_arith) requires j < i, 0 <= s;
                        } else {
                            assert(i * s + s <= j * s) by (nonlinear_arith) requires i < j, 0 <= s;
                        }
                        assert(off + size <= oj || oj + size <= off);
                        lemma_store_keeps_other(word, off, oj, size, val as u64);
                    }
                }
            }
        }
    }

    /// Reads entry `i`.
    pub fn get(&mut self, i: usize) -> (r: usize)
        requires
            old(self).entry_size() < 64,
            old(self).addressable(i as int),
        ensures
            *final(self) == *old(self),
            r == old(self).entry(i as int) as usize,
    {
        let bit = i * self.bit_size;
        let pos = bit / 64;
        let size = self.bit_size as u64;
        let one_shl: u64 = 1u64 << size;
        proof {
            assert(1u64 << size >= 1) by (bit_vector) requires size < 64;
        }
        let mask: u64 = one_shl - 1;
        let off = (bit % 64) as u64;
        let word = self.bits[pos];
        let r = (word >> off) & mask;
        r as usize
    }
}

} // verus!
