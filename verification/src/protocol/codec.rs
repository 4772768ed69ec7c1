use vstd::prelude::*;
use byteorder::{BigEndian, ByteOrder, WriteBytesExt};
use super::{Error, IoErrorKind, Lengthable, Serializable, rest};
use super::varint::{VarInt, overlong, varint_bytes, varint_parse_from, lemma_varint_round_trip};
use crate::text::string_from_utf8;
use vstd::utf8::{valid_utf8, decode_utf8, encode_utf8};

verus! {

/// The big-endian bytes of `n`.
pub open spec fn u16_be_bytes(n: u16) -> Seq<u8> {
    seq![(n >> 8u16) as u8, n as u8]
}

/// The number whose big-endian bytes begin `b`.
pub open spec fn u16_of_be(b: Seq<u8>) -> u16 {
    ((b[0] as u16) << 8u16) | (b[1] as u16)
}

proof fn lemma_u16_be(n: u16)
    ensures
        u16_be_bytes(n).len() == 2,
        u16_of_be(u16_be_bytes(n)) == n,
{
    let b = u16_be_bytes(n);
    let b0 = b[0];
    let b1 = b[1];
    assert(((b0 as u16) << 8u16) | (b1 as u16) == n) by (bit_vector)
        requires
            b0 == (n >> 8u16) as u8,
            b1 == n as u8,
    ;
}

proof fn lemma_u16_be_tail(n: u16, tail: Seq<u8>)
    ensures
        (u16_be_bytes(n) + tail).subrange(0, 2) == u16_be_bytes(n),
        u16_of_be(u16_be_bytes(n) + tail) == n,
{
    lemma_u16_be(n);
    let s = u16_be_bytes(n) + tail;
    assert(s.subrange(0, 2) =~= u16_be_bytes(n));
    assert(u16_of_be(s) == u16_of_be(s.subrange(0, 2)));
}

/// The big-endian bytes of `n`.
pub open spec fn u32_be_bytes(n: u32) -> Seq<u8> {
    seq![(n >> 24u32) as u8, (n >> 16u32) as u8, (n >> 8u32) as u8, n as u8]
}

/// The number whose big-endian bytes begin `b`.
pub open spec fn u32_of_be(b: Seq<u8>) -> u32 {
    ((b[0] as u32) << 24u32) | ((b[1] as u32) << 16u32) | ((b[2] as u32) << 8u32) | (b[3] as u32)
}

proof fn lemma_u32_be(n: u32)
    ensures
        u32_be_bytes(n).len() == 4,
        u32_of_be(u32_be_bytes(n)) == n,
{
    let b = u32_be_bytes(n);
    let b0 = b[0];
    let b1 = b[1];
    let b2 = b[2];
    let b3 = b[3];
    assert(((b0 as u32) << 24u32) | ((b1 as u32) << 16u32) | ((b2 as u32) << 8u32) | (b3 as u32) == n) by (bit_vector)
        requires
            b0 == (n >> 24u32) as u8,
            b1 == (n >> 16u32) as u8,
            b2 == (n >> 8u32) as u8,
            b3 == n as u8,
    ;
}

proof fn lemma_u32_be_tail(n: u32, tail: Seq<u8>)
    ensures
        (u32_be_bytes(n) + tail).subrange(0, 4) == u32_be_bytes(n),
        u32_of_be(u32_be_bytes(n) + tail) == n,
{
    lemma_u32_be(n);
    let s = u32_be_bytes(n) + tail;
    assert(s.subrange(0, 4) =~= u32_be_bytes(n));
    assert(u32_of_be(s) == u32_of_be(s.subrange(0, 4)));
}

/// The big-endian bytes of `n`.
pub open spec fn u64_be_bytes(n: u64) -> Seq<u8> {
    seq![(n >> 56u64) as u8, (n >> 48u64) as u8, (n >> 40u64) as u8, (n >> 32u64) as u8, (n >> 24u64) as u8, (n >> 16u64) as u8, (n >> 8u64) as u8, n as u8]
}

/// The number whose big-endian bytes begin `b`.
pub open spec fn u64_of_be(b: Seq<u8>) -> u64 {
    ((b[0] as u64) << 56u64) | ((b[1] as u64) << 48u64) | ((b[2] as u64) << 40u64) | ((b[3] as u64) << 32u64) | ((b[4] as u64) << 24u64) | ((b[5] as u64) << 16u64) | ((b[6] as u64) << 8u64) | (b[7] as u64)
}

proof fn lemma_u64_be(n: u64)
    ensures
        u64_be_bytes(n).len() == 8,
        u64_of_be(u64_be_bytes(n)) == n,
{
    let b = u64_be_bytes(n);
    let b0 = b[0];
    let b1 = b[1];
    let b2 = b[2];
    let b3 = b[3];
    let b4 = b[4];
    let b5 = b[5];
    let b6 = b[6];
    let b7 = b[7];
    assert(((b0 as u64) << 56u64) | ((b1 as u64) << 48u64) | ((b2 as u64) << 40u64) | ((b3 as u64) << 32u64) | ((b4 as u64) << 24u64) | ((b5 as u64) << 16u64) | ((b6 as u64) << 8u64) | (b7 as u64) == n) by (bit_vector)
        requires
            b0 == (n >> 56u64) as u8,
            b1 == (n >> 48u64) as u8,
            b2 == (n >> 40u64) as u8,
            b3 == (n >> 32u64) as u8,
            b4 == (n >> 24u64) as u8,
            b5 == (n >> 16u64) as u8,
            b6 == (n >> 8u64) as u8,
            b7 == n as u8,
    ;
}

proof fn lemma_u64_be_tail(n: u64, tail: Seq<u8>)
    ensures
        (u64_be_bytes(n) + tail).subrange(0, 8) == u64_be_bytes(n),
        u64_of_be(u64_be_bytes(n) + tail) == n,
{
    lemma_u64_be(n);
    let s = u64_be_bytes(n) + tail;
    assert(s.subrange(0, 8) =~= u64_be_bytes(n));
    assert(u64_of_be(s) == u64_of_be(s.subrange(0, 8)));
}

/// byteorder's `BigEndian::read_u16`: the big-endian `u16` in the 2 bytes of
/// `buf` starting at `pos`.
#[verifier::external_body]
fn be_read_u16(buf: &[u8], pos: usize) -> (v: u16)
    requires
        pos + 2 <= buf@.len(),
    ensures
        v == u16_of_be(buf@.subrange(pos as int, pos + 2)),
{
    BigEndian::read_u16(&buf[pos..])
}

/// byteorder's `BigEndian::read_i16`: the big-endian `i16` in the 2 bytes of
/// `buf` starting at `pos`.
#[verifier::external_body]
fn be_read_i16(buf: &[u8], pos: usize) -> (v: i16)
    requires
        pos + 2 <= buf@.len(),
    ensures
        v == u16_of_be(buf@.subrange(pos as int, pos + 2)) as i16,
{
    BigEndian::read_i16(&buf[pos..])
}

/// byteorder's `BigEndian::read_i32`: the big-endian `i32` in the 4 bytes of
/// `buf` starting at `pos`.
#[verifier::external_body]
fn be_read_i32(buf: &[u8], pos: usize) -> (v: i32)
    requires
        pos + 4 <= buf@.len(),
    ensures
        v == u32_of_be(buf@.subrange(pos as int, pos + 4)) as i32,
{
    BigEndian::read_i32(&buf[pos..])
}

/// byteorder's `BigEndian::read_i64`: the big-endian `i64` in the 8 bytes of
/// `buf` starting at `pos`.
#[verifier::external_body]
fn be_read_i64(buf: &[u8], pos: usize) -> (v: i64)
    requires
        pos + 8 <= buf@.len(),
    ensures
        v == u64_of_be(buf@.subrange(pos as int, pos + 8)) as i64,
{
    BigEndian::read_i64(&buf[pos..])
}

/// byteorder's `BigEndian::read_u64`: the big-endian `u64` in the 8 bytes of
/// `buf` starting at `pos`.
#[verifier::external_body]
fn be_read_u64(buf: &[u8], pos: usize) -> (v: u64)
    requires
        pos + 8 <= buf@.len(),
    ensures
        v == u64_of_be(buf@.subrange(pos as int, pos + 8)),
{
    BigEndian::read_u64(&buf[pos..])
}

/// byteorder's `WriteBytesExt::write_u16::<BigEndian>` on a `Vec<u8>`: appends
/// the big-endian bytes of `n` (writing to a vector cannot fail).
#[verifier::external_body]
fn be_write_u16(out: &mut Vec<u8>, n: u16)
    ensures
        final(out)@ == old(out)@ + u16_be_bytes(n),
{
    let _ = out.write_u16::<BigEndian>(n);
}

/// byteorder's `WriteBytesExt::write_i16::<BigEndian>` on a `Vec<u8>`: appends
/// the big-endian bytes of `n` (writing to a vector cannot fail).
#[verifier::external_body]
fn be_write_i16(out: &mut Vec<u8>, n: i16)
    ensures
        final(out)@ == old(out)@ + u16_be_bytes(n as u16),
{
    let _ = out.write_i16::<BigEndian>(n);
}

/// byteorder's `WriteBytesExt::write_i32::<BigEndian>` on a `Vec<u8>`: appends
/// the big-endian bytes of `n` (writing to a vector cannot fail).
#[verifier::external_body]
fn be_write_i32(out: &mut Vec<u8>, n: i32)
    ensures
        final(out)@ == old(out)@ + u32_be_bytes(n as u32),
{
    let _ = out.write_i32::<BigEndian>(n);
}

/// byteorder's `WriteBytesExt::write_i64::<BigEndian>` on a `Vec<u8>`: appends
/// the big-endian bytes of `n` (writing to a vector cannot fail).
#[verifier::external_body]
fn be_write_i64(out: &mut Vec<u8>, n: i64)
    ensures
        final(out)@ == old(out)@ + u64_be_bytes(n as u64),
{
    let _ = out.write_i64::<BigEndian>(n);
}

/// byteorder's `WriteBytesExt::write_u64::<BigEndian>` on a `Vec<u8>`: appends
/// the big-endian bytes of `n` (writing to a vector cannot fail).
#[verifier::external_body]
fn be_write_u64(out: &mut Vec<u8>, n: u64)
    ensures
        final(out)@ == old(out)@ + u64_be_bytes(n),
{
    let _ = out.write_u64::<BigEndian>(n);
}

impl Serializable for u16 {
    open spec fn spec_parse(bytes: Seq<u8>) -> Option<(u16, nat)> {
        if bytes.len() >= 2 {
            Some((u16_of_be(bytes), 2))
        } else {
            None
        }
    }

    open spec fn spec_serialize(v: u16) -> Seq<u8> {
        u16_be_bytes(v)
    }

    open spec fn read_panics(bytes: Seq<u8>) -> bool {
        false
    }

    open spec fn write_panics(v: u16) -> bool {
        false
    }

    open spec fn round_trips(v: u16) -> bool {
        true
    }

    open spec fn self_delimiting() -> bool {
        true
    }

    /// Running out of bytes is an unexpected end.
    fn read_from(buf: &[u8], pos: usize) -> (res: Result<(u16, usize), Error>)
        ensures
            res matches Err(e) ==> e matches Error::IOError(IoErrorKind::UnexpectedEof),
    {
        if buf.len() - pos < 2 {
            return Err(Error::IOError(IoErrorKind::UnexpectedEof));
        }
        let v = be_read_u16(buf, pos);
        proof {
            let r = rest(buf@, pos as int);
            assert(r.subrange(0, 2) =~= buf@.subrange(pos as int, pos + 2));
            assert(u16_of_be(r) == u16_of_be(r.subrange(0, 2)));
        }
        Ok((v, pos + 2))
    }

    fn write_to(&self, out: &mut Vec<u8>) -> (res: Result<(), Error>) {
        be_write_u16(out, *self);
        Ok(())
    }

    proof fn lemma_round_trip(v: u16, tail: Seq<u8>) {
        lemma_u16_be_tail(v, tail);
    }
}

impl Serializable for i16 {
    open spec fn spec_parse(bytes: Seq<u8>) -> Option<(i16, nat)> {
        if bytes.len() >= 2 {
            Some((u16_of_be(bytes) as i16, 2))
        } else {
            None
        }
    }

    open spec fn spec_serialize(v: i16) -> Seq<u8> {
        u16_be_bytes(v as u16)
    }

    open spec fn read_panics(bytes: Seq<u8>) -> bool {
        false
    }

    open spec fn write_panics(v: i16) -> bool {
        false
    }

    open spec fn round_trips(v: i16) -> bool {
        true
    }

    open spec fn self_delimiting() -> bool {
        true
    }

    /// Running out of bytes is an unexpected end.
    fn read_from(buf: &[u8], pos: usize) -> (res: Result<(i16, usize), Error>)
        ensures
            res matches Err(e) ==> e matches Error::IOError(IoErrorKind::UnexpectedEof),
    {
        if buf.len() - pos < 2 {
            return Err(Error::IOError(IoErrorKind::UnexpectedEof));
        }
        let v = be_read_i16(buf, pos);
        proof {
            let r = rest(buf@, pos as int);
            assert(r.subrange(0, 2) =~= buf@.subrange(pos as int, pos + 2));
            assert(u16_of_be(r) as i16 == u16_of_be(r.subrange(0, 2)) as i16);
        }
        Ok((v, pos + 2))
    }

    fn write_to(&self, out: &mut Vec<u8>) -> (res: Result<(), Error>) {
        be_write_i16(out, *self);
        Ok(())
    }

    proof fn lemma_round_trip(v: i16, tail: Seq<u8>) {
        lemma_u16_be_tail(#[verifier::truncate] (v as u16), tail);
        assert((#[verifier::truncate] (v as u16)) as i16 == v) by (bit_vector);
    }
}

impl Serializable for i32 {
    open spec fn spec_parse(bytes: Seq<u8>) -> Option<(i32, nat)> {
        if bytes.len() >= 4 {
            Some((u32_of_be(bytes) as i32, 4))
        } else {
            None
        }
    }

    open spec fn spec_serialize(v: i32) -> Seq<u8> {
        u32_be_bytes(v as u32)
    }

    open spec fn read_panics(bytes: Seq<u8>) -> bool {
        false
    }

    open spec fn write_panics(v: i32) -> bool {
        false
    }

    open spec fn round_trips(v: i32) -> bool {
        true
    }

    open spec fn self_delimiting() -> bool {
        true
    }

    /// Running out of bytes is an unexpected end.
    fn read_from(buf: &[u8], pos: usize) -> (res: Result<(i32, usize), Error>)
        ensures
            res matches Err(e) ==> e matches Error::IOError(IoErrorKind::UnexpectedEof),
    {
        if buf.len() - pos < 4 {
            return Err(Error::IOError(IoErrorKind::UnexpectedEof));
        }
        let v = be_read_i32(buf, pos);
        proof {
            let r = rest(buf@, pos as int);
            assert(r.subrange(0, 4) =~= buf@.subrange(pos as int, pos + 4));
            assert(u32_of_be(r) as i32 == u32_of_be(r.subrange(0, 4)) as i32);
        }
        Ok((v, pos + 4))
    }

    fn write_to(&self, out: &mut Vec<u8>) -> (res: Result<(), Error>) {
        be_write_i32(out, *self);
        Ok(())
    }

    proof fn lemma_round_trip(v: i32, tail: Seq<u8>) {
        lemma_u32_be_tail(#[verifier::truncate] (v as u32), tail);
        assert((#[verifier::truncate] (v as u32)) as i32 == v) by (bit_vector);
    }
}

impl Serializable for i64 {
    open spec fn spec_parse(bytes: Seq<u8>) -> Option<(i64, nat)> {
        if bytes.len() >= 8 {
            Some((u64_of_be(bytes) as i64, 8))
        } else {
            None
        }
    }

    open spec fn spec_serialize(v: i64) -> Seq<u8> {
        u64_be_bytes(v as u64)
    }

    open spec fn read_panics(bytes: Seq<u8>) -> bool {
        false
    }

    open spec fn write_panics(v: i64) -> bool {
        false
    }

    open spec fn round_trips(v: i64) -> bool {
        true
    }

    open spec fn self_delimiting() -> bool {
        true
    }

    /// Running out of bytes is an unexpected end.
    fn read_from(buf: &[u8], pos: usize) -> (res: Result<(i64, usize), Error>)
        ensures
            res matches Err(e) ==> e matches Error::IOError(IoErrorKind::UnexpectedEof),
    {
        if buf.len() - pos < 8 {
            return Err(Error::IOError(IoErrorKind::UnexpectedEof));
        }
        let v = be_read_i64(buf, pos);
        proof {
            let r = rest(buf@, pos as int);
            assert(r.subrange(0, 8) =~= buf@.subrange(pos as int, pos + 8));
            assert(u64_of_be(r) as i64 == u64_of_be(r.subrange(0, 8)) as i64);
        }
        Ok((v, pos + 8))
    }

    fn write_to(&self, out: &mut Vec<u8>) -> (res: Result<(), Error>) {
        be_write_i64(out, *self);
        Ok(())
    }

    proof fn lemma_round_trip(v: i64, tail: Seq<u8>) {
        lemma_u64_be_tail(#[verifier::truncate] (v as u64), tail);
        assert((#[verifier::truncate] (v as u64)) as i64 == v) by (bit_vector);
    }
}

impl Serializable for u64 {
    open spec fn spec_parse(bytes: Seq<u8>) -> Option<(u64, nat)> {
        if bytes.len() >= 8 {
            Some((u64_of_be(bytes), 8))
        } else {
            None
        }
    }

    open spec fn spec_serialize(v: u64) -> Seq<u8> {
        u64_be_bytes(v)
    }

    open spec fn read_panics(bytes: Seq<u8>) -> bool {
        false
    }

    open spec fn write_panics(v: u64) -> bool {
        false
    }

    open spec fn round_trips(v: u64) -> bool {
        true
    }

    open spec fn self_delimiting() -> bool {
        true
    }

    /// Running out of bytes is an unexpected end.
    fn read_from(buf: &[u8], pos: usize) -> (res: Result<(u64, usize), Error>)
        ensures
            res matches Err(e) ==> e matches Error::IOError(IoErrorKind::UnexpectedEof),
    {
        if buf.len() - pos < 8 {
            return Err(Error::IOError(IoErrorKind::UnexpectedEof));
        }
        let v = be_read_u64(buf, pos);
        proof {
            let r = rest(buf@, pos as int);
            assert(r.subrange(0, 8) =~= buf@.subrange(pos as int, pos + 8));
            assert(u64_of_be(r) == u64_of_be(r.subrange(0, 8)));
        }
        Ok((v, pos + 8))
    }

    fn write_to(&self, out: &mut Vec<u8>) -> (res: Result<(), Error>) {
        be_write_u64(out, *self);
        Ok(())
    }

    proof fn lemma_round_trip(v: u64, tail: Seq<u8>) {
        lemma_u64_be_tail(v, tail);
    }
}

impl Lengthable for i16 {
    open spec fn spec_into(v: i16) -> usize {
        v as usize
    }

    open spec fn spec_from(u: usize) -> i16 {
        u as i16
    }

    fn into(self) -> (r: usize) {
        self as usize
    }

    fn from(u: usize) -> (r: i16) {
        u as i16
    }
}

impl Lengthable for i32 {
    open spec fn spec_into(v: i32) -> usize {
        v as usize
    }

    open spec fn spec_from(u: usize) -> i32 {
        u as i32
    }

    fn into(self) -> (r: usize) {
        self as usize
    }

    fn from(u: usize) -> (r: i32) {
        u as i32
    }
}

impl Serializable for u8 {
    open spec fn spec_parse(bytes: Seq<u8>) -> Option<(u8, nat)> {
        if bytes.len() >= 1 { Some((bytes[0], 1)) } else { None }
    }

    open spec fn spec_serialize(v: u8) -> Seq<u8> {
        seq![v]
    }

    open spec fn read_panics(bytes: Seq<u8>) -> bool {
        false
    }

    open spec fn write_panics(v: u8) -> bool {
        false
    }

    open spec fn round_trips(v: u8) -> bool {
        true
    }

    open spec fn self_delimiting() -> bool {
        true
    }

    /// Running out of bytes is an unexpected end.
    fn read_from(buf: &[u8], pos: usize) -> (res: Result<(u8, usize), Error>)
        ensures
            res matches Err(e) ==> e matches Error::IOError(IoErrorKind::UnexpectedEof),
    {
        if pos >= buf.len() {
            return Err(Error::IOError(IoErrorKind::UnexpectedEof));
        }
        Ok((buf[pos], pos + 1))
    }

    fn write_to(&self, out: &mut Vec<u8>) -> (res: Result<(), Error>) {
        out.push(*self);
        proof {
            assert(out@ =~= old(out)@ + seq![*self]);
        }
        Ok(())
    }

    proof fn lemma_round_trip(v: u8, tail: Seq<u8>) {
    }
}

impl Serializable for i8 {
    open spec fn spec_parse(bytes: Seq<u8>) -> Option<(i8, nat)> {
        if bytes.len() >= 1 { Some((bytes[0] as i8, 1)) } else { None }
    }

    open spec fn spec_serialize(v: i8) -> Seq<u8> {
        seq![v as u8]
    }

    open spec fn read_panics(bytes: Seq<u8>) -> bool {
        false
    }

    open spec fn write_panics(v: i8) -> bool {
        false
    }

    open spec fn round_trips(v: i8) -> bool {
        true
    }

    open spec fn self_delimiting() -> bool {
        true
    }

    /// Running out of bytes is an unexpected end.
    fn read_from(buf: &[u8], pos: usize) -> (res: Result<(i8, usize), Error>)
        ensures
            res matches Err(e) ==> e matches Error::IOError(IoErrorKind::UnexpectedEof),
    {
        if pos >= buf.len() {
            return Err(Error::IOError(IoErrorKind::UnexpectedEof));
        }
        Ok((buf[pos] as i8, pos + 1))
    }

    fn write_to(&self, out: &mut Vec<u8>) -> (res: Result<(), Error>) {
        out.push(*self as u8);
        proof {
            assert(out@ =~= old(out)@ + seq![*self as u8]);
        }
        Ok(())
    }

    proof fn lemma_round_trip(v: i8, tail: Seq<u8>) {
        assert((#[verifier::truncate] (v as u8)) as i8 == v) by (bit_vector);
    }
}

impl Serializable for bool {
    open spec fn spec_parse(bytes: Seq<u8>) -> Option<(bool, nat)> {
        if bytes.len() >= 1 { Some((bytes[0] != 0, 1)) } else { None }
    }

    open spec fn spec_serialize(v: bool) -> Seq<u8> {
        seq![if v { 1u8 } else { 0u8 }]
    }

    open spec fn read_panics(bytes: Seq<u8>) -> bool {
        false
    }

    open spec fn write_panics(v: bool) -> bool {
        false
    }

    open spec fn round_trips(v: bool) -> bool {
        true
    }

    open spec fn self_delimiting() -> bool {
        true
    }

    /// Running out of bytes is an unexpected end.
    fn read_from(buf: &[u8], pos: usize) -> (res: Result<(bool, usize), Error>)
        ensures
            res matches Err(e) ==> e matches Error::IOError(IoErrorKind::UnexpectedEof),
    {
        if pos >= buf.len() {
            return Err(Error::IOError(IoErrorKind::UnexpectedEof));
        }
        Ok((buf[pos] != 0, pos + 1))
    }

    fn write_to(&self, out: &mut Vec<u8>) -> (res: Result<(), Error>) {
        out.push(if *self { 1 } else { 0 });
        proof {
            assert(out@ =~= old(out)@ + seq![if *self { 1u8 } else { 0u8 }]);
        }
        Ok(())
    }

    proof fn lemma_round_trip(v: bool, tail: Seq<u8>) {
    }
}

impl Serializable for () {
    open spec fn spec_parse(bytes: Seq<u8>) -> Option<((), nat)> {
        Some(((), 0))
    }

    open spec fn spec_serialize(v: ()) -> Seq<u8> {
        seq![]
    }

    open spec fn read_panics(bytes: Seq<u8>) -> bool {
        false
    }

    open spec fn write_panics(v: ()) -> bool {
        false
    }

    open spec fn round_trips(v: ()) -> bool {
        true
    }

    open spec fn self_delimiting() -> bool {
        true
    }

    fn read_from(buf: &[u8], pos: usize) -> (res: Result<((), usize), Error>) {
        Ok(((), pos))
    }

    fn write_to(&self, out: &mut Vec<u8>) -> (res: Result<(), Error>) {
        proof {
            assert(out@ =~= old(out)@ + Seq::<u8>::empty());
        }
        Ok(())
    }

    proof fn lemma_round_trip(v: (), tail: Seq<u8>) {
        assert(Seq::<u8>::empty() + tail =~= tail);
    }
}

/// Appends the bytes of `src` to `out`.
pub fn append_bytes(out: &mut Vec<u8>, src: &[u8])
    ensures
        final(out)@ == old(out)@ + src@,
{
    let mut i: usize = 0;
    while i < src.len()
        invariant
            i <= src@.len(),
            out@ == old(out)@ + src@.subrange(0, i as int),
        decreases src@.len() - i,
    {
        out.push(src[i]);
        proof {
            assert(out@ =~= old(out)@ + src@.subrange(0, i + 1));
        }
        i = i + 1;
    }
    proof {
        assert(src@.subrange(0, src@.len() as int) =~= src@);
    }
}

/// Copies `len` bytes of `buf` starting at `pos`.
pub fn copy_bytes(buf: &[u8], pos: usize, len: usize) -> (v: Vec<u8>)
    requires
        pos + len <= buf@.len(),
    ensures
        v@ == buf@.subrange(pos as int, pos + len),
{
    let mut v: Vec<u8> = Vec::with_capacity(len);
    let n = buf.len();
    let mut i: usize = 0;
    while i < len
        invariant
            n == buf@.len(),
            pos + len <= buf@.len(),
            i <= len,
            v@ == buf@.subrange(pos as int, pos + i),
        decreases len - i,
    {
        assert(pos + i < buf@.len());
        v.push(buf[pos + i]);
        proof {
            assert(v@ =~= buf@.subrange(pos as int, pos + i + 1));
        }
        i = i + 1;
    }
    v
}

/// How many bytes a read limited to `len` takes from `avail` available ones
/// (a negative length, widened to 64 bits, places no limit).
pub open spec fn limited_count(len: i32, avail: nat) -> nat {
    if len < 0 || avail <= len { avail } else { len as nat }
}

/// Reading a length-prefixed UTF-8 string: the length, then at most that
/// many bytes (fewer where the input ends first), which must be valid UTF-8.
pub open spec fn string_parse(bytes: Seq<u8>) -> Option<(Seq<char>, nat)> {
    match varint_parse_from(bytes, 0, 0) {
        Some((len, n)) => {
            let count = limited_count(len as i32, (bytes.len() - n) as nat);
            let body = bytes.subrange(n as int, (n + count) as int);
            if valid_utf8(body) {
                Some((decode_utf8(body), n + count))
            } else {
                None
            }
        },
        None => None,
    }
}

impl Serializable for String {
    open spec fn spec_parse(bytes: Seq<u8>) -> Option<(Seq<char>, nat)> {
        string_parse(bytes)
    }

    open spec fn spec_serialize(v: Seq<char>) -> Seq<u8> {
        varint_bytes((encode_utf8(v).len() as i32) as u32) + encode_utf8(v)
    }

    open spec fn read_panics(bytes: Seq<u8>) -> bool {
        false
    }

    open spec fn write_panics(v: Seq<char>) -> bool {
        false
    }

    open spec fn round_trips(v: Seq<char>) -> bool {
        encode_utf8(v).len() <= i32::MAX
    }

    open spec fn self_delimiting() -> bool {
        true
    }

    /// A length that does not read fails as the length does; text that is
    /// not UTF-8 is invalid data.
    fn read_from(buf: &[u8], pos: usize) -> (res: Result<(String, usize), Error>)
        ensures
            res matches Err(e) ==> match <VarInt as Serializable>::spec_parse(rest(buf@, pos as int)) {
                None => if overlong(rest(buf@, pos as int), 5) {
                    e matches Error::Message(m) && m@ == "VarInt too big"@
                } else {
                    e matches Error::IOError(IoErrorKind::UnexpectedEof)
                },
                Some(_) => e matches Error::IOError(IoErrorKind::InvalidData),
            },
    {
        let (len, p) = match VarInt::read_from(buf, pos) {
            Ok(x) => x,
            Err(e) => return Err(e),
        };
        let avail = buf.len() - p;
        let count: usize = if len.0 < 0 || avail <= len.0 as usize { avail } else { len.0 as usize };
        let body = copy_bytes(buf, p, count);
        proof {
            let r = rest(buf@, pos as int);
            let n = (p - pos) as nat;
            assert(r.subrange(n as int, n + count) =~= buf@.subrange(p as int, p + count));
            assert(count == limited_count(len.0, (r.len() - n) as nat));
        }
        match string_from_utf8(body) {
            Some(s) => Ok((s, p + count)),
            None => Err(Error::IOError(IoErrorKind::InvalidData)),
        }
    }

    fn write_to(&self, out: &mut Vec<u8>) -> (res: Result<(), Error>) {
        let bytes = self.as_str().as_bytes();
        let _ = VarInt(bytes.len() as i32).write_to(out);
        append_bytes(out, bytes);
        proof {
            assert(out@ =~= old(out)@ + (varint_bytes((encode_utf8(self@).len() as i32) as u32) + encode_utf8(self@)));
        }
        Ok(())
    }

    proof fn lemma_round_trip(v: Seq<char>, tail: Seq<u8>) {
        let body = encode_utf8(v);
        let len = body.len() as i32;
        let u = len as u32;
        lemma_varint_round_trip(u, body + tail);
        let pre = varint_bytes(u);
        let s = pre + body + tail;
        assert(pre + (body + tail) =~= s);
        assert(s.subrange(pre.len() as int, (pre.len() + body.len()) as int) =~= body);
        vstd::utf8::encode_utf8_valid_utf8(v);
        vstd::utf8::encode_utf8_decode_utf8(v);
        assert(varint_parse_from(s, 0, 0) == Some((u, pre.len())));
        assert((u as i32) == len) by (bit_vector) requires u == len as u32;
        assert(limited_count(u as i32, (s.len() - pre.len()) as nat) == body.len());
        assert(s.subrange(0, (pre + body).len() as int) =~= pre + body);
    }
}

impl Serializable for Vec<u8> {
    open spec fn spec_parse(bytes: Seq<u8>) -> Option<(Seq<u8>, nat)> {
        Some((bytes, bytes.len()))
    }

    open spec fn spec_serialize(v: Seq<u8>) -> Seq<u8> {
        v
    }

    open spec fn read_panics(bytes: Seq<u8>) -> bool {
        false
    }

    open spec fn write_panics(v: Seq<u8>) -> bool {
        false
    }

    open spec fn round_trips(v: Seq<u8>) -> bool {
        true
    }

    /// Reading takes everything up to the end of the input.
    open spec fn self_delimiting() -> bool {
        false
    }

    fn read_from(buf: &[u8], pos: usize) -> (res: Result<(Vec<u8>, usize), Error>) {
        let v = copy_bytes(buf, pos, buf.len() - pos);
        Ok((v, buf.len()))
    }

    fn write_to(&self, out: &mut Vec<u8>) -> (res: Result<(), Error>) {
        append_bytes(out, self.as_slice());
        Ok(())
    }

    proof fn lemma_round_trip(v: Seq<u8>, tail: Seq<u8>) {
        assert(v + tail =~= v);
    }
}

} // verus!
