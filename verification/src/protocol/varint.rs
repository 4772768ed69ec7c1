use vstd::prelude::*;
use super::{Error, IoErrorKind, Lengthable, Serializable, rest};

verus! {

/// `VarInt` have a variable size (between 1 and 5 bytes) when encoded based
/// on the size of the number
#[derive(Clone, Copy, Debug)]
pub struct VarInt(pub i32);

/// `VarLong` have a variable size (between 1 and 10 bytes) when encoded based
/// on the size of the number
#[derive(Clone, Copy, Debug)]
pub struct VarLong(pub i64);

impl Default for VarInt {
    fn default() -> (v: VarInt)
        ensures
            v@ == 0,
    {
        VarInt(0)
    }
}

impl Default for VarLong {
    fn default() -> (v: VarLong)
        ensures
            v@ == 0,
    {
        VarLong(0)
    }
}

impl View for VarInt {
    type V = i32;

    open spec fn view(&self) -> i32 {
        self.0
    }
}

impl View for VarLong {
    type V = i64;

    open spec fn view(&self) -> i64 {
        self.0
    }
}

/// Decoding of a 32-bit varint from byte `i` on, with the groups already read
/// or-ed into `acc`: each byte gives seven bits, least significant group
/// first, until a byte without the high bit; a sixth byte is an error.
pub open spec fn varint_parse_from(b: Seq<u8>, i: nat, acc: u32) -> Option<(u32, nat)>
    decreases 6 - i,
{
    if i >= 5 || i >= b.len() {
        None
    } else {
        let acc2 = acc | (((b[i as int] & 0x7f) as u32) << ((7 * i) as u32));
        if b[i as int] & 0x80 == 0 {
            Some((acc2, i + 1))
        } else {
            varint_parse_from(b, i + 1, acc2)
        }
    }
}

/// `r` goes on past its first `k` bytes, all of which announce more.
pub open spec fn overlong(r: Seq<u8>, k: nat) -> bool {
    r.len() > k && forall|i: int| 0 <= i < k ==> r[i] & 0x80 != 0
}

/// The varint encoding of `v`.
pub open spec fn varint_bytes(v: u32) -> Seq<u8>
    decreases v,
{
    if v & !0x7fu32 == 0 {
        seq![v as u8]
    } else {
        proof {
            lemma_shift_u32(v, 0);
        }
        seq![((v & 0x7f) | 0x80) as u8] + varint_bytes(v >> 7u32)
    }
}

/// Decoding of a 64-bit varint, as `varint_parse_from` but with up to ten bytes.
pub open spec fn varlong_parse_from(b: Seq<u8>, i: nat, acc: u64) -> Option<(u64, nat)>
    decreases 11 - i,
{
    if i >= 10 || i >= b.len() {
        None
    } else {
        let acc2 = acc | (((b[i as int] & 0x7f) as u64) << ((7 * i) as u64));
        if b[i as int] & 0x80 == 0 {
            Some((acc2, i + 1))
        } else {
            varlong_parse_from(b, i + 1, acc2)
        }
    }
}

/// The varint encoding of a 64-bit `v`.
pub open spec fn varlong_bytes(v: u64) -> Seq<u8>
    decreases v,
{
    if v & !0x7fu64 == 0 {
        seq![v as u8]
    } else {
        proof {
            lemma_shift_u64(v, 0);
        }
        seq![((v & 0x7f) | 0x80) as u8] + varlong_bytes(v >> 7u64)
    }
}

/// Bit facts about dropping the low seven bits of a 32-bit value.
pub proof fn lemma_shift_u32(v: u32, i: i32)
    by (bit_vector)
    ensures
        v & !0x7fu32 != 0 ==> v >> 7u32 < v,
        v >> 7u32 < 0x2000000u32,
        v < 0x200000u32 ==> v >> 7u32 < 0x4000u32,
        v < 0x4000u32 ==> v >> 7u32 < 0x80u32,
        v < 0x10000000u32 ==> v >> 7u32 < 0x200000u32,
        v < 0x80u32 ==> v & !0x7fu32 == 0,
        v >> 0u32 == v,
        v & (((1u32 << 0u32) - 1) as u32) == 0,
        v == i as u32 ==> v as i32 == i,
{
}

/// Bit facts about dropping the low seven bits of a 64-bit value.
pub proof fn lemma_shift_u64(v: u64, i: i64)
    by (bit_vector)
    ensures
        v & !0x7fu64 != 0 ==> v >> 7u64 < v,
        v >> 0u64 == v,
        v & (((1u64 << 0u64) - 1) as u64) == 0,
        v == i as u64 ==> v as i64 == i,
{
}

proof fn lemma_step_u32(v: u32, sh: u32, w: u32, acc: u32)
    by (bit_vector)
    requires
        sh <= 28,
        w == v >> sh,
        acc == v & (((1u32 << sh) - 1) as u32),
    ensures
        w & !0x7fu32 == 0 ==> (w as u8) & 0x80 == 0 && (((w as u8) & 0x7f) as u32) == w && (acc | (w << sh)) == v,
        w & !0x7fu32 != 0 ==> sh < 28 && (((w & 0x7f) | 0x80) as u8) & 0x80 != 0
            && (((((w & 0x7f) | 0x80) as u8) & 0x7f) as u32) == (w & 0x7f)
            && (acc | ((w & 0x7f) << sh)) == v & (((1u32 << ((sh + 7) as u32)) - 1) as u32)
            && w >> 7u32 == v >> ((sh + 7) as u32),
{
}

proof fn lemma_step_u64(v: u64, sh: u64, w: u64, acc: u64)
    by (bit_vector)
    requires
        sh <= 63,
        w == v >> sh,
        acc == v & (((1u64 << sh) - 1) as u64),
    ensures
        w & !0x7fu64 == 0 ==> (w as u8) & 0x80 == 0 && (((w as u8) & 0x7f) as u64) == w && (acc | (w << sh)) == v,
        w & !0x7fu64 != 0 ==> sh < 63 && (((w & 0x7f) | 0x80) as u8) & 0x80 != 0
            && (((((w & 0x7f) | 0x80) as u8) & 0x7f) as u64) == (w & 0x7f)
            && (sh + 7 <= 63 ==> (acc | ((w & 0x7f) << sh)) == v & (((1u64 << ((sh + 7) as u64)) - 1) as u64)
                && w >> 7u64 == v >> ((sh + 7) as u64)),
{
}

proof fn lemma_varint_bytes_len(v: u32)
    ensures
        1 <= varint_bytes(v).len() <= 5,
        v < 0x200000u32 ==> varint_bytes(v).len() <= 3,
        v < 0x4000u32 ==> varint_bytes(v).len() <= 2,
        v < 0x80u32 ==> varint_bytes(v).len() <= 1,
        v < 0x10000000u32 ==> varint_bytes(v).len() <= 4,
    decreases v,
{
    lemma_shift_u32(v, 0);
    if v & !0x7fu32 != 0 {
        lemma_varint_bytes_len(v >> 7u32);
    }
}

proof fn lemma_varint_parse_step(pre: Seq<u8>, v: u32, tail: Seq<u8>)
    requires
        pre.len() <= 4,
    ensures
        ({
            let sh = (7 * pre.len()) as u32;
            let w = v >> sh;
            let acc = v & (((1u32 << sh) - 1) as u32);
            varint_parse_from(pre + varint_bytes(w) + tail, pre.len(), acc) == Some((v, pre.len() + varint_bytes(w).len()))
        }),
    decreases 5 - pre.len(),
{
    let i = pre.len();
    let sh = (7 * i) as u32;
    let w = v >> sh;
    let acc = v & (((1u32 << sh) - 1) as u32);
    let s = pre + varint_bytes(w) + tail;
    assert(sh <= 28);
    if w & !0x7fu32 == 0 {
        let byte = w as u8;
        assert(s[i as int] == byte);
        lemma_step_u32(v, sh, w, acc);
    } else {
        let byte = ((w & 0x7f) | 0x80) as u8;
        assert(s[i as int] == byte);
        lemma_step_u32(v, sh, w, acc);
        let sh2 = (sh + 7) as u32;
        let acc2 = acc | ((w & 0x7f) << sh);
        let pre2 = pre.push(byte);
        assert(sh2 == (7 * pre2.len()) as u32);
        lemma_varint_parse_step(pre2, v, tail);
        assert(pre2 + varint_bytes(w >> 7u32) + tail =~= s);
    }
}

/// Decoding the varint encoding of `u` gives `u` back and consumes exactly the encoding.
pub proof fn lemma_varint_round_trip(u: u32, tail: Seq<u8>)
    ensures
        varint_parse_from(varint_bytes(u) + tail, 0, 0) == Some((u, varint_bytes(u).len())),
{
    lemma_varint_parse_step(Seq::empty(), u, tail);
    lemma_shift_u32(u, 0);
    assert(Seq::<u8>::empty() + varint_bytes(u) + tail =~= varint_bytes(u) + tail);
}

proof fn lemma_varlong_parse_step(pre: Seq<u8>, v: u64, tail: Seq<u8>)
    requires
        pre.len() <= 9,
    ensures
        ({
            let sh = (7 * pre.len()) as u64;
            let w = v >> sh;
            let acc = v & (((1u64 << sh) - 1) as u64);
            varlong_parse_from(pre + varlong_bytes(w) + tail, pre.len(), acc) == Some((v, pre.len() + varlong_bytes(w).len()))
        }),
    decreases 10 - pre.len(),
{
    let i = pre.len();
    let sh = (7 * i) as u64;
    let w = v >> sh;
    let acc = v & (((1u64 << sh) - 1) as u64);
    let s = pre + varlong_bytes(w) + tail;
    assert(sh <= 63);
    if w & !0x7fu64 == 0 {
        let byte = w as u8;
        assert(s[i as int] == byte);
        lemma_step_u64(v, sh, w, acc);
    } else {
        let byte = ((w & 0x7f) | 0x80) as u8;
        assert(s[i as int] == byte);
        lemma_step_u64(v, sh, w, acc);
        let sh2 = (sh + 7) as u64;
        assert(sh2 <= 63);
        let acc2 = acc | ((w & 0x7f) << sh);
        let pre2 = pre.push(byte);
        assert(sh2 == (7 * pre2.len()) as u64);
        lemma_varlong_parse_step(pre2, v, tail);
        assert(pre2 + varlong_bytes(w >> 7u64) + tail =~= s);
    }
}

impl Serializable for VarInt {
    open spec fn spec_parse(bytes: Seq<u8>) -> Option<(i32, nat)> {
        match varint_parse_from(bytes, 0, 0) {
            Some((v, n)) => Some((v as i32, n)),
            None => None,
        }
    }

    open spec fn spec_serialize(v: i32) -> Seq<u8> {
        varint_bytes(v as u32)
    }

    open spec fn read_panics(bytes: Seq<u8>) -> bool {
        false
    }

    open spec fn write_panics(v: i32) -> bool {
        false
    }

    open spec fn round_trips(v: i32) -> bool {
        true
    }

    open spec fn self_delimiting() -> bool {
        true
    }

    /// Decodes a `VarInt`; running out of bytes is an unexpected end, and a
    /// sixth byte is an error of its own.
    fn read_from(buf: &[u8], pos: usize) -> (res: Result<(VarInt, usize), Error>)
        ensures
            res matches Err(e) ==> if overlong(rest(buf@, pos as int), 5) {
                e matches Error::Message(m) && m@ == "VarInt too big"@
            } else {
                e matches Error::IOError(IoErrorKind::UnexpectedEof)
            },
    {
        let ghost r = rest(buf@, pos as int);
        let mut size: usize = 0;
        let mut val: u32 = 0;
        let mut p: usize = pos;
        loop
            invariant
                pos <= p <= buf@.len(),
                p == pos + size,
                size <= 4,
                r == rest(buf@, pos as int),
                forall|i: int| 0 <= i < size ==> r[i] & 0x80 != 0,
                varint_parse_from(r, 0, 0) == varint_parse_from(r, size as nat, val),
            decreases 5 - size,
        {
            if p >= buf.len() {
                assert(r.len() <= size);
                assert(varint_parse_from(r, size as nat, val) is None);
                assert(varint_parse_from(r, 0, 0) is None);
                assert(<VarInt as Serializable>::spec_parse(r) is None);
                return Err(Error::IOError(IoErrorKind::UnexpectedEof));
            }
            let b = buf[p];
            assert(r[size as int] == b);
            let sh = (size * 7) as u32;
            let ghost old_size = size as nat;
            let ghost old_val = val;
            val = val | (((b & 0x7f) as u32) << sh);
            size = size + 1;
            p = p + 1;
            assert(val == old_val | (((r[old_size as int] & 0x7f) as u32) << ((7 * old_size) as u32)));
            if b & 0x80 == 0 {
                assert(varint_parse_from(r, old_size, old_val) == Some((val, size as nat)));
                assert(<VarInt as Serializable>::spec_parse(r) == Some((val as i32, size as nat)));
                return Ok((VarInt(val as i32), p));
            }
            assert(varint_parse_from(r, old_size, old_val) == varint_parse_from(r, size as nat, val));
            if size == 5 {
                assert(varint_parse_from(r, size as nat, val) is None);
                assert(<VarInt as Serializable>::spec_parse(r) is None);
                if p >= buf.len() {
                    return Err(Error::IOError(IoErrorKind::UnexpectedEof));
                }
                return Err(Error::Message("VarInt too big".to_owned()));
            }
        }
    }

    /// Encodes a `VarInt`.
    fn write_to(&self, out: &mut Vec<u8>) -> (res: Result<(), Error>) {
        let mut val: u32 = self.0 as u32;
        loop
            invariant
                old(out)@ + varint_bytes(self.0 as u32) == out@ + varint_bytes(val),
            decreases val,
        {
            if val & !0x7fu32 == 0 {
                out.push(val as u8);
                proof {
                    assert(out@ =~= old(out)@ + varint_bytes(self.0 as u32));
                }
                return Ok(());
            }
            let ghost prev = out@;
            out.push(((val & 0x7f) | 0x80) as u8);
            proof {
                lemma_shift_u32(val, 0);
                assert(prev + varint_bytes(val) =~= out@ + varint_bytes(val >> 7u32));
            }
            val = val >> 7;
        }
    }

    proof fn lemma_round_trip(v: i32, tail: Seq<u8>) {
        let u = v as u32;
        lemma_varint_round_trip(u, tail);
        lemma_shift_u32(u, v);
    }
}

impl Lengthable for VarInt {
    open spec fn spec_into(v: i32) -> usize {
        v as usize
    }

    open spec fn spec_from(u: usize) -> i32 {
        u as i32
    }

    fn into(self) -> (r: usize) {
        self.0 as usize
    }

    fn from(u: usize) -> (r: VarInt) {
        VarInt(u as i32)
    }
}

impl Serializable for VarLong {
    open spec fn spec_parse(bytes: Seq<u8>) -> Option<(i64, nat)> {
        match varlong_parse_from(bytes, 0, 0) {
            Some((v, n)) => Some((v as i64, n)),
            None => None,
        }
    }

    open spec fn spec_serialize(v: i64) -> Seq<u8> {
        varlong_bytes(v as u64)
    }

    open spec fn read_panics(bytes: Seq<u8>) -> bool {
        false
    }

    open spec fn write_panics(v: i64) -> bool {
        false
    }

    open spec fn round_trips(v: i64) -> bool {
        true
    }

    open spec fn self_delimiting() -> bool {
        true
    }

    /// Decodes a `VarLong`; running out of bytes is an unexpected end, and
    /// an eleventh byte is an error of its own.
    fn read_from(buf: &[u8], pos: usize) -> (res: Result<(VarLong, usize), Error>)
        ensures
            res matches Err(e) ==> if overlong(rest(buf@, pos as int), 10) {
                e matches Error::Message(m) && m@ == "VarLong too big"@
            } else {
                e matches Error::IOError(IoErrorKind::UnexpectedEof)
            },
    {
        let ghost r = rest(buf@, pos as int);
        let mut size: usize = 0;
        let mut val: u64 = 0;
        let mut p: usize = pos;
        loop
            invariant
                pos <= p <= buf@.len(),
                p == pos + size,
                size <= 9,
                r == rest(buf@, pos as int),
                forall|i: int| 0 <= i < size ==> r[i] & 0x80 != 0,
                varlong_parse_from(r, 0, 0) == varlong_parse_from(r, size as nat, val),
            decreases 10 - size,
        {
            if p >= buf.len() {
                assert(r.len() <= size);
                assert(varlong_parse_from(r, size as nat, val) is None);
                assert(<VarLong as Serializable>::spec_parse(r) is None);
                return Err(Error::IOError(IoErrorKind::UnexpectedEof));
            }
            let b = buf[p];
            assert(r[size as int] == b);
            let sh = (size * 7) as u64;
            let ghost old_size = size as nat;
            let ghost old_val = val;
            val = val | (((b & 0x7f) as u64) << sh);
            size = size + 1;
            p = p + 1;
            assert(val == old_val | (((r[old_size as int] & 0x7f) as u64) << ((7 * old_size) as u64)));
            if b & 0x80 == 0 {
                assert(varlong_parse_from(r, old_size, old_val) == Some((val, size as nat)));
                assert(<VarLong as Serializable>::spec_parse(r) == Some((val as i64, size as nat)));
                return Ok((VarLong(val as i64), p));
            }
            assert(varlong_parse_from(r, old_size, old_val) == varlong_parse_from(r, size as nat, val));
            if size == 10 {
                assert(varlong_parse_from(r, size as nat, val) is None);
                assert(<VarLong as Serializable>::spec_parse(r) is None);
                if p >= buf.len() {
                    return Err(Error::IOError(IoErrorKind::UnexpectedEof));
                }
                return Err(Error::Message("VarLong too big".to_owned()));
            }
        }
    }

    /// Encodes a `VarLong`.
    fn write_to(&self, out: &mut Vec<u8>) -> (res: Result<(), Error>) {
        let mut val: u64 = self.0 as u64;
        loop
            invariant
                old(out)@ + varlong_bytes(self.0 as u64) == out@ + varlong_bytes(val),
            decreases val,
        {
            if val & !0x7fu64 == 0 {
                out.push(val as u8);
                proof {
                    assert(out@ =~= old(out)@ + varlong_bytes(self.0 as u64));
                }
                return Ok(());
            }
            let ghost prev = out@;
            out.push(((val & 0x7f) | 0x80) as u8);
            proof {
                lemma_shift_u64(val, 0);
                assert(prev + varlong_bytes(val) =~= out@ + varlong_bytes(val >> 7u64));
            }
            val = val >> 7;
        }
    }

    proof fn lemma_round_trip(v: i64, tail: Seq<u8>) {
        let u = v as u64;
        lemma_varlong_parse_step(Seq::empty(), u, tail);
        lemma_shift_u64(u, v);
        assert(Seq::<u8>::empty() + varlong_bytes(u) + tail =~= varlong_bytes(u) + tail);

    }
}

impl Lengthable for VarLong {
    open spec fn spec_into(v: i64) -> usize {
        v as usize
    }

    open spec fn spec_from(u: usize) -> i64 {
        u as i64
    }

    fn into(self) -> (r: usize) {
        self.0 as usize
    }

    fn from(u: usize) -> (r: VarLong) {
        VarLong(u as i64)
    }
}

} // verus!
