use vstd::prelude::*;
use super::{Error, Serializable, rest};
use super::codec::{u64_of_be, u64_be_bytes};
use crate::shared::Position;

verus! {

/// The position packed in a 64-bit word: x in the top 26 bits, then y in
/// 12 bits, then z in the low 26 bits; x and z are sign-extended.
pub open spec fn unpack_position(word: u64) -> Position {
    Position {
        x: ((word as i64) >> 38i64) as i32,
        y: (((word as i64) >> 26i64) & 0xFFFi64) as i32,
        z: (((word as i64) << 38i64) >> 38i64) as i32,
    }
}

/// The 64-bit word a position is packed into (coordinates masked to their fields).
pub open spec fn pack_position(p: Position) -> u64 {
    (((p.x as u64) & 0x3FFFFFFu64) << 38u64) | (((p.y as u64) & 0xFFFu64) << 26u64) | ((p.z as u64) & 0x3FFFFFFu64)
}

/// Coordinates that fit their packed fields.
pub open spec fn position_fits(p: Position) -> bool {
    -0x2000000 <= p.x < 0x2000000 && 0 <= p.y < 0x1000 && -0x2000000 <= p.z < 0x2000000
}

impl Serializable for Position {
    open spec fn spec_parse(bytes: Seq<u8>) -> Option<(Position, nat)> {
        if bytes.len() >= 8 {
            Some((unpack_position(u64_of_be(bytes)), 8))
        } else {
            None
        }
    }

    open spec fn spec_serialize(v: Position) -> Seq<u8> {
        u64_be_bytes(pack_position(v))
    }

    open spec fn read_panics(bytes: Seq<u8>) -> bool {
        false
    }

    open spec fn write_panics(v: Position) -> bool {
        false
    }

    open spec fn round_trips(v: Position) -> bool {
        position_fits(v)
    }

    open spec fn self_delimiting() -> bool {
        true
    }

    fn read_from(buf: &[u8], pos: usize) -> (res: Result<(Position, usize), Error>) {
        let (word, p) = match <u64 as Serializable>::read_from(buf, pos) {
            Ok(x) => x,
            Err(e) => return Err(e),
        };
        let w = word as i64;
        Ok((Position::new((w >> 38) as i32, ((w >> 26) & 0xFFF) as i32, ((w << 38) >> 38) as i32), p))
    }

    fn write_to(&self, out: &mut Vec<u8>) -> (res: Result<(), Error>) {
        let word = (((self.x as u64) & 0x3FFFFFF) << 38) | (((self.y as u64) & 0xFFF) << 26) | ((self.z as u64) & 0x3FFFFFF);
        word.write_to(out)
    }

    proof fn lemma_round_trip(v: Position, tail: Seq<u8>) {
        let w = pack_position(v);
        <u64 as Serializable>::lemma_round_trip(w, tail);
        let (x, y, z) = (v.x, v.y, v.z);
        assert((((((((x as u64) & 0x3FFFFFFu64) << 38u64) | (((y as u64) & 0xFFFu64) << 26u64) | ((z as u64) & 0x3FFFFFFu64)) as i64) >> 38i64) as i32) == x
            && ((((((((x as u64) & 0x3FFFFFFu64) << 38u64) | (((y as u64) & 0xFFFu64) << 26u64) | ((z as u64) & 0x3FFFFFFu64)) as i64) >> 26i64) & 0xFFFi64) as i32) == y
            && ((((((((x as u64) & 0x3FFFFFFu64) << 38u64) | (((y as u64) & 0xFFFu64) << 26u64) | ((z as u64) & 0x3FFFFFFu64)) as i64) << 38i64) >> 38i64) as i32) == z)
            by (bit_vector)
            requires
                -0x2000000 <= x < 0x2000000,
                0 <= y < 0x1000,
                -0x2000000 <= z < 0x2000000,
        ;
    }
}

} // verus!
