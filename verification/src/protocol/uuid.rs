use vstd::prelude::*;
use vstd::string::*;
use rustc_serialize::hex::FromHex;
use super::{Error, IoErrorKind, Serializable, rest};
use super::codec::{u64_of_be, u64_be_bytes};
use crate::format::hex_digit;

verus! {

/// Whether a byte is skipped by the hex decoder (space, tab, carriage return, newline).
pub open spec fn hex_whitespace(b: u8) -> bool {
    b == 32 || b == 9 || b == 13 || b == 10
}

/// The hexadecimal digits of `b` in order, whitespace skipped; `None` if a
/// byte is neither.
pub open spec fn hex_nibbles(b: Seq<u8>) -> Option<Seq<u8>>
    decreases b.len(),
{
    if b.len() == 0 {
        Some(Seq::empty())
    } else if hex_whitespace(b[0]) {
        hex_nibbles(b.drop_first())
    } else {
        match (hex_digit(b[0]), hex_nibbles(b.drop_first())) {
            (Some(d), Some(t)) => Some(seq![d] + t),
            _ => None,
        }
    }
}

/// Pairs of nibbles, high nibble first, as bytes.
pub open spec fn nibbles_to_bytes(n: Seq<u8>) -> Seq<u8>
    decreases n.len(),
{
    if n.len() < 2 {
        Seq::empty()
    } else {
        seq![(n[0] * 16 + n[1]) as u8] + nibbles_to_bytes(n.subrange(2, n.len() as int))
    }
}

/// Decoding of hexadecimal text: an even number of digits (whitespace ignored).
pub open spec fn hex_decode(b: Seq<u8>) -> Option<Seq<u8>> {
    match hex_nibbles(b) {
        Some(n) => if n.len() % 2 == 0 { Some(nibbles_to_bytes(n)) } else { None },
        None => None,
    }
}

/// rustc_serialize's `FromHex::from_hex` on the part of `s` between byte
/// offsets `from` and `to`: the bytes that the hexadecimal text encodes, or
/// `None` where it holds another character or an odd number of digits.
#[verifier::external_body]
fn from_hex_range(s: &str, from: usize, to: usize) -> (res: Option<Vec<u8>>)
    requires
        from <= to <= s.spec_bytes().len(),
        vstd::utf8::is_char_boundary(s.spec_bytes(), from as int),
        vstd::utf8::is_char_boundary(s.spec_bytes(), to as int),
    ensures
        res matches Some(v) ==> hex_decode(s.spec_bytes().subrange(from as int, to as int)) == Some(v@),
        res is None ==> hex_decode(s.spec_bytes().subrange(from as int, to as int)) is None,
{
    s[from..to].from_hex().ok()
}

/// A 128-bit player or entity id, as its high and low halves.
#[derive(Debug, PartialEq, Eq, Hash, Clone, Copy)]
pub struct UUID(u64, u64);

impl View for UUID {
    type V = (u64, u64);

    closed spec fn view(&self) -> (u64, u64) {
        (self.0, self.1)
    }
}

impl UUID {
    /// Whether the two ids are the same.
    pub fn same(&self, other: &UUID) -> (b: bool)
        ensures
            b == (self@ == other@),
    {
        self.0 == other.0 && self.1 == other.1
    }
}

/// The byte ranges of the five groups in the textual form of a UUID.
pub open spec fn uuid_groups() -> Seq<(int, int)> {
    seq![(0, 8), (9, 13), (14, 18), (19, 23), (24, 36)]
}

/// The bytes that the five groups of `b` decode to, one after another.
pub open spec fn uuid_group_bytes(b: Seq<u8>) -> Option<Seq<u8>> {
    match (hex_decode(b.subrange(0, 8)), hex_decode(b.subrange(9, 13)), hex_decode(b.subrange(14, 18)),
        hex_decode(b.subrange(19, 23)), hex_decode(b.subrange(24, 36))) {
        (Some(a), Some(c), Some(d), Some(e), Some(f)) => Some(a + c + d + e + f),
        _ => None,
    }
}

/// Whether `from_str` accepts the text: 36 bytes, cut at each group without
/// splitting a character, every group hexadecimal, at least 16 bytes in all.
pub open spec fn uuid_text_ok(b: Seq<u8>) -> bool {
    &&& b.len() == 36
    &&& forall|k: int| 0 <= k < 5 ==> vstd::utf8::is_char_boundary(b, #[trigger] uuid_groups()[k].0)
        && vstd::utf8::is_char_boundary(b, uuid_groups()[k].1)
    &&& uuid_group_bytes(b) matches Some(p) && p.len() >= 16
}

impl UUID {
    /// Parses the textual form `xxxxxxxx-xxxx-xxxx-xxxx-xxxxxxxxxxxx`; the
    /// first 16 bytes the groups decode to are the id, big-endian.
    pub fn from_str(s: &str) -> (u: UUID)
        requires
            uuid_text_ok(s.spec_bytes()),
        ensures
            ({
                let p = uuid_group_bytes(s.spec_bytes()).unwrap();
                u@ == (u64_of_be(p.subrange(0, 8)), u64_of_be(p.subrange(8, 16)))
            }),
    {
        let ghost b = s.spec_bytes();
        proof {
            assert(uuid_groups()[0].0 == 0 && uuid_groups()[0].1 == 8);
            assert(uuid_groups()[1].0 == 9 && uuid_groups()[1].1 == 13);
            assert(uuid_groups()[2].0 == 14 && uuid_groups()[2].1 == 18);
            assert(uuid_groups()[3].0 == 19 && uuid_groups()[3].1 == 23);
            assert(uuid_groups()[4].0 == 24 && uuid_groups()[4].1 == 36);
        }
        let a = from_hex_range(s, 0, 8).unwrap();
        let c = from_hex_range(s, 9, 13).unwrap();
        let d = from_hex_range(s, 14, 18).unwrap();
        let e = from_hex_range(s, 19, 23).unwrap();
        let f = from_hex_range(s, 24, 36).unwrap();
        let mut parts: Vec<u8> = Vec::new();
        crate::protocol::codec::append_bytes(&mut parts, a.as_slice());
        crate::protocol::codec::append_bytes(&mut parts, c.as_slice());
        crate::protocol::codec::append_bytes(&mut parts, d.as_slice());
        crate::protocol::codec::append_bytes(&mut parts, e.as_slice());
        crate::protocol::codec::append_bytes(&mut parts, f.as_slice());
        proof {
            assert(parts@ =~= uuid_group_bytes(b).unwrap());
        }
        let mut high: u64 = 0;
        let mut low: u64 = 0;
        let mut i: usize = 0;
        while i < 8
            invariant
                i <= 8,
                parts@.len() >= 16,
                high == be_prefix(parts@.subrange(0, 8), i as nat),
                low == be_prefix(parts@.subrange(8, 16), i as nat),
            decreases 8 - i,
        {
            let sh = (56 - i * 8) as u64;
            high = high | ((parts[i] as u64) << sh);
            low = low | ((parts[i + 8] as u64) << sh);
            i = i + 1;
        }
        proof {
            lemma_be_prefix_full(parts@.subrange(0, 8));
            lemma_be_prefix_full(parts@.subrange(8, 16));
        }
        UUID(high, low)
    }
}

/// The first `k` of eight big-endian bytes placed at their positions in a `u64`.
pub open spec fn be_prefix(b: Seq<u8>, k: nat) -> u64
    decreases k,
{
    if k == 0 {
        0
    } else {
        be_prefix(b, (k - 1) as nat) | ((b[k - 1] as u64) << ((56 - (k - 1) * 8) as u64))
    }
}

proof fn lemma_be_prefix_full(b: Seq<u8>)
    requires
        b.len() == 8,
    ensures
        be_prefix(b, 8) == u64_of_be(b),
{
    reveal_with_fuel(be_prefix, 9);
    let (b0, b1, b2, b3, b4, b5, b6, b7) = (b[0], b[1], b[2], b[3], b[4], b[5], b[6], b[7]);
    assert(0u64 | ((b0 as u64) << 56u64) | ((b1 as u64) << 48u64) | ((b2 as u64) << 40u64) | ((b3 as u64) << 32u64)
        | ((b4 as u64) << 24u64) | ((b5 as u64) << 16u64) | ((b6 as u64) << 8u64) | ((b7 as u64) << 0u64)
        == ((b0 as u64) << 56u64) | ((b1 as u64) << 48u64) | ((b2 as u64) << 40u64) | ((b3 as u64) << 32u64)
        | ((b4 as u64) << 24u64) | ((b5 as u64) << 16u64) | ((b6 as u64) << 8u64) | (b7 as u64)) by (bit_vector);
}

impl Default for UUID {
    fn default() -> (u: UUID)
        ensures
            u@ == (0u64, 0u64),
    {
        UUID(0, 0)
    }
}

impl Serializable for UUID {
    open spec fn spec_parse(bytes: Seq<u8>) -> Option<((u64, u64), nat)> {
        if bytes.len() >= 16 {
            Some(((u64_of_be(bytes), u64_of_be(bytes.subrange(8, 16))), 16))
        } else {
            None
        }
    }

    open spec fn spec_serialize(v: (u64, u64)) -> Seq<u8> {
        u64_be_bytes(v.0) + u64_be_bytes(v.1)
    }

    open spec fn read_panics(bytes: Seq<u8>) -> bool {
        false
    }

    open spec fn write_panics(v: (u64, u64)) -> bool {
        false
    }

    open spec fn round_trips(v: (u64, u64)) -> bool {
        true
    }

    open spec fn self_delimiting() -> bool {
        true
    }

    fn read_from(buf: &[u8], pos: usize) -> (res: Result<(UUID, usize), Error>) {
        let (high, p) = match <u64 as Serializable>::read_from(buf, pos) {
            Ok(x) => x,
            Err(e) => return Err(e),
        };
        let (low, p2) = match <u64 as Serializable>::read_from(buf, p) {
            Ok(x) => x,
            Err(e) => return Err(e),
        };
        proof {
            let r = rest(buf@, pos as int);
            assert(rest(buf@, p as int) =~= r.subrange(8, r.len() as int));
            assert(r.subrange(8, r.len() as int).subrange(0, 8) =~= r.subrange(8, 16));
            assert(u64_of_be(r.subrange(8, r.len() as int)) == u64_of_be(r.subrange(8, 16)));
        }
        Ok((UUID(high, low), p2))
    }

    fn write_to(&self, out: &mut Vec<u8>) -> (res: Result<(), Error>) {
        let _ = self.0.write_to(out);
        let _ = self.1.write_to(out);
        proof {
            assert(out@ =~= old(out)@ + (u64_be_bytes(self.0) + u64_be_bytes(self.1)));
        }
        Ok(())
    }

    proof fn lemma_round_trip(v: (u64, u64), tail: Seq<u8>) {
        <u64 as Serializable>::lemma_round_trip(v.0, u64_be_bytes(v.1) + tail);
        <u64 as Serializable>::lemma_round_trip(v.1, tail);
        let s = u64_be_bytes(v.0) + u64_be_bytes(v.1) + tail;
        assert(s =~= u64_be_bytes(v.0) + (u64_be_bytes(v.1) + tail));
        assert(s.subrange(8, s.len() as int) =~= u64_be_bytes(v.1) + tail);
        assert(s.subrange(8, s.len() as int).subrange(0, 8) =~= s.subrange(8, 16));
    }
}

} // verus!
