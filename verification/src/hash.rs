use vstd::prelude::*;

verus! {

/// The FNV offset basis, where every hash starts.
pub const FNV_OFFSET: u64 = 0xcbf29ce484222325;

/// The 64-bit FNV prime.
pub const FNV_PRIME: u64 = 0x100000001b3;

/// The state after feeding `bytes` to a hasher in state `h`: for each byte,
/// multiply by the prime (wrapping) and then xor the byte in.
pub open spec fn fnv_feed(h: u64, bytes: Seq<u8>) -> u64
    decreases bytes.len(),
{
    if bytes.len() == 0 {
        h
    } else {
        let last = bytes.len() - 1;
        (((fnv_feed(h, bytes.subrange(0, last)) as int * FNV_PRIME as int) % 0x1_0000_0000_0000_0000) as u64)
            ^ (bytes[last] as u64)
    }
}

/// Feeding two pieces in turn is feeding them joined.
pub proof fn lemma_fnv_feed_concat(h: u64, a: Seq<u8>, b: Seq<u8>)
    ensures
        fnv_feed(fnv_feed(h, a), b) == fnv_feed(h, a + b),
    decreases b.len(),
{
    if b.len() == 0 {
        assert(a + b =~= a);
    } else {
        let last = b.len() - 1;
        lemma_fnv_feed_concat(h, a, b.subrange(0, last));
        assert((a + b).subrange(0, a.len() + last) =~= a + b.subrange(0, last));
        assert((a + b)[a.len() + last] == b[last]);
    }
}

/// A fast non-cryptographic hasher (FNV-1 variant: multiply, then xor).
pub struct FNVHash(u64);

impl View for FNVHash {
    type V = u64;

    closed spec fn view(&self) -> u64 {
        self.0
    }
}

impl Default for FNVHash {
    fn default() -> (h: Self)
        ensures
            h@ == FNV_OFFSET,
    {
        FNVHash(0xcbf29ce484222325)
    }
}

impl FNVHash {
    /// Feeds bytes to the hasher.
    pub fn write(&mut self, bytes: &[u8])
        ensures
            final(self)@ == fnv_feed(old(self)@, bytes@),
    {
        let ghost start = self.0;
        let mut i: usize = 0;
        while i < bytes.len()
            invariant
                i <= bytes@.len(),
                self.0 == fnv_feed(start, bytes@.subrange(0, i as int)),
            decreases bytes@.len() - i,
        {
            let ghost prev = self.0;
            self.0 = self.0.wrapping_mul(0x100000001b3);
            self.0 = self.0 ^ (bytes[i] as u64);
            proof {
                assert(bytes@.subrange(0, i + 1).subrange(0, i as int) =~= bytes@.subrange(0, i as int));
            }
            i = i + 1;
        }
        proof {
            assert(bytes@.subrange(0, bytes@.len() as int) =~= bytes@);
        }
    }

    /// The hash of everything fed so far.
    pub fn finish(&self) -> (h: u64)
        ensures
            h == self@,
    {
        self.0
    }
}

} // verus!
