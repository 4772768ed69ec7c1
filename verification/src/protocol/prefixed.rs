use vstd::prelude::*;
use super::{Error, IoErrorKind, Lengthable, Serializable, rest};
use super::codec::{append_bytes, copy_bytes};

verus! {

/// Whether allocating room for `count` values of type `V` exceeds what a
/// vector may hold (`isize::MAX` bytes), which aborts the allocation.
pub open spec fn capacity_overflows<V>(count: usize) -> bool {
    count * vstd::layout::size_of::<V>() > isize::MAX
}

/// Reading `count` values of type `V` one after another from the front of `b`.
pub open spec fn elems_parse<V: Serializable>(b: Seq<u8>, count: nat) -> Option<(Seq<V::V>, nat)>
    decreases count,
{
    if count == 0 {
        Some((Seq::empty(), 0))
    } else {
        match V::spec_parse(b) {
            Some((v, k)) => if k <= b.len() {
                match elems_parse::<V>(b.subrange(k as int, b.len() as int), (count - 1) as nat) {
                    Some((vs, m)) => Some((seq![v] + vs, k + m)),
                    None => None,
                }
            } else {
                None
            },
            None => None,
        }
    }
}

/// Whether reading `count` values from `b` reaches a value whose read aborts.
pub open spec fn elems_panic<V: Serializable>(b: Seq<u8>, count: nat) -> bool
    decreases count,
{
    if count == 0 {
        false
    } else {
        V::read_panics(b) || match V::spec_parse(b) {
            Some((v, k)) => k <= b.len() && elems_panic::<V>(b.subrange(k as int, b.len() as int), (count - 1) as nat),
            None => false,
        }
    }
}

/// The encodings of the values, one after another.
pub open spec fn elems_serialize<V: Serializable>(vs: Seq<V::V>) -> Seq<u8>
    decreases vs.len(),
{
    if vs.len() == 0 {
        Seq::empty()
    } else {
        V::spec_serialize(vs[0]) + elems_serialize::<V>(vs.drop_first())
    }
}

/// A list of values preceded by its length.
#[derive(Debug)]
pub struct LenPrefixed<L: Lengthable, V> {
    len: L,
    pub data: Vec<V>,
}

impl<L: Lengthable, V: View> View for LenPrefixed<L, V> {
    type V = Seq<V::V>;

    closed spec fn view(&self) -> Seq<V::V> {
        self.data@.map_values(|x: V| x@)
    }
}

impl<L: Lengthable, V: View> LenPrefixed<L, V> {
    /// Wraps a list of values.
    pub fn new(data: Vec<V>) -> (r: LenPrefixed<L, V>)
        ensures
            r@ == data@.map_values(|x: V| x@),
    {
        LenPrefixed { len: L::from(0), data }
    }

    /// The values, in order.
    pub fn items(&self) -> (r: &Vec<V>)
        ensures
            r@.map_values(|x: V| x@) == self@,
    {
        &self.data
    }
}

proof fn lemma_elems_serialize_push<V: Serializable>(vs: Seq<V::V>, v: V::V)
    ensures
        elems_serialize::<V>(vs.push(v)) == elems_serialize::<V>(vs) + V::spec_serialize(v),
    decreases vs.len(),
{
    if vs.len() == 0 {
        assert(vs.push(v).drop_first() =~= Seq::<V::V>::empty());
        assert(elems_serialize::<V>(Seq::<V::V>::empty()) == Seq::<u8>::empty());
        assert(V::spec_serialize(v) + Seq::<u8>::empty() =~= Seq::<u8>::empty() + V::spec_serialize(v));
    } else {
        assert(vs.push(v).drop_first() =~= vs.drop_first().push(v));
        lemma_elems_serialize_push::<V>(vs.drop_first(), v);
        assert(V::spec_serialize(vs[0]) + (elems_serialize::<V>(vs.drop_first()) + V::spec_serialize(v))
            =~= (V::spec_serialize(vs[0]) + elems_serialize::<V>(vs.drop_first())) + V::spec_serialize(v));
    }
}

proof fn lemma_elems_round_trip<V: Serializable>(vs: Seq<V::V>, tail: Seq<u8>)
    requires
        V::self_delimiting(),
        forall|i: int| 0 <= i < vs.len() ==> V::round_trips(#[trigger] vs[i]),
    ensures
        elems_parse::<V>(elems_serialize::<V>(vs) + tail, vs.len()) == Some((vs, elems_serialize::<V>(vs).len())),
    decreases vs.len(),
{
    if vs.len() == 0 {
        assert(vs =~= Seq::<V::V>::empty());
    } else {
        let v = vs[0];
        let restv = vs.drop_first();
        let rest_bytes = elems_serialize::<V>(restv);
        let s = elems_serialize::<V>(vs) + tail;
        let enc = V::spec_serialize(v);
        assert(s =~= enc + (rest_bytes + tail));
        V::lemma_round_trip(v, rest_bytes + tail);
        assert(s.subrange(enc.len() as int, s.len() as int) =~= rest_bytes + tail);
        lemma_elems_round_trip::<V>(restv, tail);
        assert(seq![v] + restv =~= vs);
    }
}

/// Whether reading `count` values ending `at` bytes in is consistent with one
/// more value read after a prefix of `i` values.
proof fn lemma_elems_parse_snoc<V: Serializable>(b: Seq<u8>, i: nat, vs: Seq<V::V>, k: nat, v: V::V, kv: nat)
    requires
        elems_parse::<V>(b, i) == Some((vs, k)),
        k <= b.len(),
        V::spec_parse(b.subrange(k as int, b.len() as int)) == Some((v, kv)),
        k + kv <= b.len(),
    ensures
        elems_parse::<V>(b, i + 1) == Some((vs.push(v), k + kv)),
    decreases i,
{
    if i == 0 {
        assert(b.subrange(0, b.len() as int) =~= b);
        let b2 = b.subrange(kv as int, b.len() as int);
        assert(elems_parse::<V>(b2, 0) == Some((Seq::<V::V>::empty(), 0nat)));
        assert(seq![v] + Seq::<V::V>::empty() =~= Seq::<V::V>::empty().push(v));
    } else {
        let (v0, k0) = V::spec_parse(b).unwrap();
        let b2 = b.subrange(k0 as int, b.len() as int);
        let (vs2, m2) = elems_parse::<V>(b2, (i - 1) as nat).unwrap();
        assert(b2.subrange((k - k0) as int, b2.len() as int) =~= b.subrange(k as int, b.len() as int));
        lemma_elems_parse_snoc::<V>(b2, (i - 1) as nat, vs2, (k - k0) as nat, v, kv);
        assert(seq![v0] + vs2.push(v) =~= (seq![v0] + vs2).push(v));
    }
}

proof fn lemma_elems_parse_fail<V: Serializable>(b: Seq<u8>, i: nat, vs: Seq<V::V>, k: nat, count: nat)
    requires
        elems_parse::<V>(b, i) == Some((vs, k)),
        k <= b.len(),
        V::spec_parse(b.subrange(k as int, b.len() as int)) is None,
        i < count,
    ensures
        elems_parse::<V>(b, count) is None,
    decreases i,
{
    if i == 0 {
        assert(b.subrange(0, b.len() as int) =~= b);
    } else {
        let (v0, k0) = V::spec_parse(b).unwrap();
        let b2 = b.subrange(k0 as int, b.len() as int);
        let (vs2, m2) = elems_parse::<V>(b2, (i - 1) as nat).unwrap();
        assert(b2.subrange((k - k0) as int, b2.len() as int) =~= b.subrange(k as int, b.len() as int));
        lemma_elems_parse_fail::<V>(b2, (i - 1) as nat, vs2, (k - k0) as nat, (count - 1) as nat);
    }
}

proof fn lemma_elems_no_panic<V: Serializable>(b: Seq<u8>, i: nat, vs: Seq<V::V>, k: nat, count: nat)
    requires
        elems_parse::<V>(b, i) == Some((vs, k)),
        k <= b.len(),
        i < count,
        !elems_panic::<V>(b, count),
    ensures
        !V::read_panics(b.subrange(k as int, b.len() as int)),
    decreases i,
{
    if i == 0 {
        assert(b.subrange(0, b.len() as int) =~= b);
    } else {
        let (v0, k0) = V::spec_parse(b).unwrap();
        let b2 = b.subrange(k0 as int, b.len() as int);
        let (vs2, m2) = elems_parse::<V>(b2, (i - 1) as nat).unwrap();
        assert(b2.subrange((k - k0) as int, b2.len() as int) =~= b.subrange(k as int, b.len() as int));
        lemma_elems_no_panic::<V>(b2, (i - 1) as nat, vs2, (k - k0) as nat, (count - 1) as nat);
    }
}

impl<L: Lengthable, V: Serializable> Serializable for LenPrefixed<L, V> {
    open spec fn spec_parse(bytes: Seq<u8>) -> Option<(Seq<V::V>, nat)> {
        match L::spec_parse(bytes) {
            Some((lv, n)) => if n <= bytes.len() {
                match elems_parse::<V>(bytes.subrange(n as int, bytes.len() as int), L::spec_into(lv) as nat) {
                    Some((vs, m)) => Some((vs, n + m)),
                    None => None,
                }
            } else {
                None
            },
            None => None,
        }
    }

    open spec fn spec_serialize(vs: Seq<V::V>) -> Seq<u8> {
        L::spec_serialize(L::spec_from(vs.len() as usize)) + elems_serialize::<V>(vs)
    }

    open spec fn read_panics(bytes: Seq<u8>) -> bool {
        L::read_panics(bytes) || match L::spec_parse(bytes) {
            Some((lv, n)) => n <= bytes.len() && (capacity_overflows::<V>(L::spec_into(lv))
                || elems_panic::<V>(bytes.subrange(n as int, bytes.len() as int), L::spec_into(lv) as nat)),
            None => false,
        }
    }

    open spec fn write_panics(vs: Seq<V::V>) -> bool {
        L::write_panics(L::spec_from(vs.len() as usize)) || exists|i: int| 0 <= i < vs.len() && V::write_panics(#[trigger] vs[i])
    }

    open spec fn round_trips(vs: Seq<V::V>) -> bool {
        &&& vs.len() <= usize::MAX
        &&& L::spec_into(L::spec_from(vs.len() as usize)) == vs.len()
        &&& L::round_trips(L::spec_from(vs.len() as usize))
        &&& L::self_delimiting()
        &&& V::self_delimiting()
        &&& forall|i: int| 0 <= i < vs.len() ==> V::round_trips(#[trigger] vs[i])
    }

    open spec fn self_delimiting() -> bool {
        L::self_delimiting() && V::self_delimiting()
    }

    fn read_from(buf: &[u8], pos: usize) -> (res: Result<(LenPrefixed<L, V>, usize), Error>) {
        let (len_data, p0) = match L::read_from(buf, pos) {
            Ok(x) => x,
            Err(e) => return Err(e),
        };
        let len = len_data.into();
        let ghost r = rest(buf@, pos as int);
        let ghost b = rest(buf@, p0 as int);
        proof {
            assert(r.subrange((p0 - pos) as int, r.len() as int) =~= b);
        }
        let mut data: Vec<V> = Vec::new();
        let mut p = p0;
        let mut i: usize = 0;
        while i < len
            invariant
                pos <= p0 <= p <= buf@.len(),
                i <= len,
                b == rest(buf@, p0 as int),
                r == rest(buf@, pos as int),
                L::spec_parse(r) == Some((len_data@, (p0 - pos) as nat)),
                L::spec_into(len_data@) == len,
                r.subrange((p0 - pos) as int, r.len() as int) == b,
                !elems_panic::<V>(b, len as nat),
                elems_parse::<V>(b, i as nat) == Some((data@.map_values(|x: V| x@), (p - p0) as nat)),
            decreases len - i,
        {
            proof {
                lemma_elems_no_panic::<V>(b, i as nat, data@.map_values(|x: V| x@), (p - p0) as nat, len as nat);
                assert(b.subrange((p - p0) as int, b.len() as int) =~= rest(buf@, p as int));
            }
            match V::read_from(buf, p) {
                Ok((v, p2)) => {
                    proof {
                        lemma_elems_parse_snoc::<V>(b, i as nat, data@.map_values(|x: V| x@), (p - p0) as nat, v@, (p2 - p) as nat);
                    }
                    data.push(v);
                    proof {
                        assert(data@.map_values(|x: V| x@) =~= views_of::<V>(data@));
                    }
                    p = p2;
                },
                Err(e) => {
                    proof {
                        lemma_elems_parse_fail::<V>(b, i as nat, data@.map_values(|x: V| x@), (p - p0) as nat, len as nat);
                        assert(elems_parse::<V>(b, len as nat) is None);
                        assert(L::spec_parse(r) == Some((len_data@, (p0 - pos) as nat)));
                        assert(L::spec_into(len_data@) == len);
                        assert(r.subrange((p0 - pos) as int, r.len() as int) == b);
                        assert(Self::spec_parse(r) is None);
                    }
                    return Err(e);
                },
            }
            i = i + 1;
        }
        Ok((LenPrefixed { len: len_data, data }, p))
    }

    fn write_to(&self, out: &mut Vec<u8>) -> (res: Result<(), Error>) {
        let len_data = L::from(self.data.len());
        let _ = len_data.write_to(out);
        let ghost start = out@;
        let mut i: usize = 0;
        while i < self.data.len()
            invariant
                i <= self.data@.len(),
                !Self::write_panics(self@),
                out@ == start + elems_serialize::<V>(self@.subrange(0, i as int)),
            decreases self.data@.len() - i,
        {
            proof {
                assert(self@[i as int] == self.data@[i as int]@);
            }
            let _ = self.data[i].write_to(out);
            proof {
                lemma_elems_serialize_push::<V>(self@.subrange(0, i as int), self.data@[i as int]@);
                assert(self@.subrange(0, i as int).push(self.data@[i as int]@) =~= self@.subrange(0, i + 1));
            }
            i = i + 1;
        }
        proof {
            assert(self@.subrange(0, self.data@.len() as int) =~= self@);
        }
        Ok(())
    }

    proof fn lemma_round_trip(vs: Seq<V::V>, tail: Seq<u8>) {
        let lv = L::spec_from(vs.len() as usize);
        let pre = L::spec_serialize(lv);
        let body = elems_serialize::<V>(vs);
        L::lemma_round_trip(lv, body + tail);
        lemma_elems_round_trip::<V>(vs, tail);
        let s = pre + body + tail;
        assert(pre + (body + tail) =~= s);
        assert(s.subrange(pre.len() as int, s.len() as int) =~= body + tail);
    }
}

/// Raw bytes preceded by their length.
#[derive(Debug)]
pub struct LenPrefixedBytes<L: Lengthable> {
    len: L,
    pub data: Vec<u8>,
}

impl<L: Lengthable> View for LenPrefixedBytes<L> {
    type V = Seq<u8>;

    closed spec fn view(&self) -> Seq<u8> {
        self.data@
    }
}

impl<L: Lengthable> LenPrefixedBytes<L> {
    /// Wraps a byte buffer.
    pub fn new(data: Vec<u8>) -> (r: LenPrefixedBytes<L>)
        ensures
            r@ == data@,
    {
        LenPrefixedBytes { len: L::from(0), data }
    }

    /// The bytes, without their length.
    pub fn into_bytes(self) -> (r: Vec<u8>)
        ensures
            r@ == self@,
    {
        self.data
    }
}

impl<L: Lengthable> Serializable for LenPrefixedBytes<L> {
    /// The length, then at most that many bytes (fewer where the input ends first).
    open spec fn spec_parse(bytes: Seq<u8>) -> Option<(Seq<u8>, nat)> {
        match L::spec_parse(bytes) {
            Some((lv, n)) => if n <= bytes.len() {
                let avail = (bytes.len() - n) as nat;
                let count: nat = if L::spec_into(lv) < avail { L::spec_into(lv) as nat } else { avail };
                Some((bytes.subrange(n as int, (n + count) as int), n + count))
            } else {
                None
            },
            None => None,
        }
    }

    open spec fn spec_serialize(v: Seq<u8>) -> Seq<u8> {
        L::spec_serialize(L::spec_from(v.len() as usize)) + v
    }

    open spec fn read_panics(bytes: Seq<u8>) -> bool {
        L::read_panics(bytes) || match L::spec_parse(bytes) {
            Some((lv, n)) => L::spec_into(lv) > isize::MAX,
            None => false,
        }
    }

    open spec fn write_panics(v: Seq<u8>) -> bool {
        L::write_panics(L::spec_from(v.len() as usize))
    }

    open spec fn round_trips(v: Seq<u8>) -> bool {
        &&& v.len() <= usize::MAX
        &&& L::spec_into(L::spec_from(v.len() as usize)) == v.len()
        &&& L::round_trips(L::spec_from(v.len() as usize))
        &&& L::self_delimiting()
    }

    open spec fn self_delimiting() -> bool {
        L::self_delimiting()
    }

    fn read_from(buf: &[u8], pos: usize) -> (res: Result<(LenPrefixedBytes<L>, usize), Error>) {
        let (len_data, p) = match L::read_from(buf, pos) {
            Ok(x) => x,
            Err(e) => return Err(e),
        };
        let len = len_data.into();
        let avail = buf.len() - p;
        let count = if len < avail { len } else { avail };
        let data = copy_bytes(buf, p, count);
        proof {
            let r = rest(buf@, pos as int);
            let n = (p - pos) as int;
            assert(r.subrange(n, n + count) =~= buf@.subrange(p as int, p + count));
        }
        Ok((LenPrefixedBytes { len: len_data, data }, p + count))
    }

    fn write_to(&self, out: &mut Vec<u8>) -> (res: Result<(), Error>) {
        let len_data = L::from(self.data.len());
        let _ = len_data.write_to(out);
        append_bytes(out, self.data.as_slice());
        proof {
            assert(out@ =~= old(out)@ + (L::spec_serialize(L::spec_from(self@.len() as usize)) + self@));
        }
        Ok(())
    }

    proof fn lemma_round_trip(v: Seq<u8>, tail: Seq<u8>) {
        let lv = L::spec_from(v.len() as usize);
        let pre = L::spec_serialize(lv);
        L::lemma_round_trip(lv, v + tail);
        let s = pre + v + tail;
        assert(pre + (v + tail) =~= s);
        assert(s.subrange(pre.len() as int, (pre.len() + v.len()) as int) =~= v);
    }
}

/// The views of a vector's elements.
pub open spec fn views_of<V: View>(d: Seq<V>) -> Seq<V::V> {
    d.map_values(|x: V| x@)
}

} // verus!
