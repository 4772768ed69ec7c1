use vstd::prelude::*;
use super::{Error, Serializable, rest};

verus! {

/// Reading `A` and then `B` from the front of `b`.
pub open spec fn pair_parse<A: Serializable, B: Serializable>(b: Seq<u8>) -> Option<((A::V, B::V), nat)> {
    match A::spec_parse(b) {
        Some((a, n)) => if n <= b.len() {
            match B::spec_parse(b.subrange(n as int, b.len() as int)) {
                Some((v, m)) => Some(((a, v), n + m)),
                None => None,
            }
        } else {
            None
        },
        None => None,
    }
}

/// Two values written one after the other.
impl<A: Serializable, B: Serializable> Serializable for (A, B) {
    open spec fn spec_parse(bytes: Seq<u8>) -> Option<((A::V, B::V), nat)> {
        pair_parse::<A, B>(bytes)
    }

    open spec fn spec_serialize(v: (A::V, B::V)) -> Seq<u8> {
        A::spec_serialize(v.0) + B::spec_serialize(v.1)
    }

    open spec fn read_panics(bytes: Seq<u8>) -> bool {
        A::read_panics(bytes) || match A::spec_parse(bytes) {
            Some((a, n)) => n <= bytes.len() && B::read_panics(bytes.subrange(n as int, bytes.len() as int)),
            None => false,
        }
    }

    open spec fn write_panics(v: (A::V, B::V)) -> bool {
        A::write_panics(v.0) || B::write_panics(v.1)
    }

    open spec fn round_trips(v: (A::V, B::V)) -> bool {
        A::round_trips(v.0) && B::round_trips(v.1) && A::self_delimiting()
    }

    open spec fn self_delimiting() -> bool {
        A::self_delimiting() && B::self_delimiting()
    }

    fn read_from(buf: &[u8], pos: usize) -> (res: Result<((A, B), usize), Error>) {
        let (a, p) = match A::read_from(buf, pos) {
            Ok(x) => x,
            Err(e) => return Err(e),
        };
        proof {
            let r = rest(buf@, pos as int);
            assert(r.subrange((p - pos) as int, r.len() as int) =~= rest(buf@, p as int));
        }
        let (b, p2) = match B::read_from(buf, p) {
            Ok(x) => x,
            Err(e) => return Err(e),
        };
        Ok(((a, b), p2))
    }

    fn write_to(&self, out: &mut Vec<u8>) -> (res: Result<(), Error>) {
        let _ = self.0.write_to(out);
        let _ = self.1.write_to(out);
        proof {
            assert(out@ =~= old(out)@ + (A::spec_serialize(self@.0) + B::spec_serialize(self@.1)));
        }
        Ok(())
    }

    proof fn lemma_round_trip(v: (A::V, B::V), tail: Seq<u8>) {
        let ea = A::spec_serialize(v.0);
        let eb = B::spec_serialize(v.1);
        A::lemma_round_trip(v.0, eb + tail);
        B::lemma_round_trip(v.1, tail);
        let s = ea + eb + tail;
        assert(s =~= ea + (eb + tail));
        assert(s.subrange(ea.len() as int, s.len() as int) =~= eb + tail);
    }
}

} // verus!
