use vstd::prelude::*;
use super::{Direction, Error, Serializable, State, rest};
use super::packet::Handshake;
use super::login::{EncryptionRequest, EncryptionResponse, LoginDisconnect, LoginStart, LoginSuccess, SetInitialCompression};
use super::prefixed::LenPrefixedBytes;
use super::varint::VarInt;
use crate::console::{int_text, push_digits};
use crate::text::{push_chars, string_from_chars};

verus! {

/// StatusRequest is sent by the client right after switching to the status
/// state, to ask for a StatusResponse.
#[derive(Debug, Default)]
pub struct StatusRequest {
    pub empty: (),
}

/// StatusPing is sent by the client after the StatusResponse; the time until
/// the StatusPong is the latency.
#[derive(Debug, Default)]
pub struct StatusPing {
    pub ping: i64,
}

/// StatusResponse answers a StatusRequest with the server's status as JSON
/// text.
#[derive(Debug, Default)]
pub struct StatusResponse {
    pub status: String,
}

/// StatusPong answers a StatusPing with the same time.
#[derive(Debug, Default)]
pub struct StatusPong {
    pub ping: i64,
}

/// A packet of the handshaking, status or login state.
#[derive(Debug)]
pub enum Packet {
    Handshake(Handshake),
    StatusRequest(StatusRequest),
    StatusPing(StatusPing),
    StatusResponse(StatusResponse),
    StatusPong(StatusPong),
    LoginStart(LoginStart),
    EncryptionResponse(EncryptionResponse),
    LoginDisconnect(LoginDisconnect),
    EncryptionRequest(EncryptionRequest),
    LoginSuccess(LoginSuccess),
    SetInitialCompression(SetInitialCompression),
}

/// A packet, as a mathematical value.
pub enum PacketView {
    Handshake((i32, (Seq<char>, (u16, i32)))),
    StatusRequest,
    StatusPing(i64),
    StatusResponse(Seq<char>),
    StatusPong(i64),
    LoginStart(Seq<char>),
    EncryptionResponse((Seq<u8>, Seq<u8>)),
    LoginDisconnect(Seq<char>),
    EncryptionRequest((Seq<char>, (Seq<u8>, Seq<u8>))),
    LoginSuccess((Seq<char>, Seq<char>)),
    SetInitialCompression(i32),
}

pub open spec fn packet_view(p: Packet) -> PacketView {
    match p {
        Packet::Handshake(h) => PacketView::Handshake(h@),
        Packet::StatusRequest(_) => PacketView::StatusRequest,
        Packet::StatusPing(p) => PacketView::StatusPing(p.ping),
        Packet::StatusResponse(r) => PacketView::StatusResponse(r.status@),
        Packet::StatusPong(p) => PacketView::StatusPong(p.ping),
        Packet::LoginStart(p) => PacketView::LoginStart(p.username@),
        Packet::EncryptionResponse(p) => PacketView::EncryptionResponse((p.shared_secret@, p.verify_token@)),
        Packet::LoginDisconnect(p) => PacketView::LoginDisconnect(p.reason@),
        Packet::EncryptionRequest(p) => PacketView::EncryptionRequest((p.server_id@, (p.public_key@, p.verify_token@))),
        Packet::LoginSuccess(p) => PacketView::LoginSuccess((p.uuid@, p.username@)),
        Packet::SetInitialCompression(p) => PacketView::SetInitialCompression(p.threshold@),
    }
}

/// The two length-prefixed byte strings of an encryption response.
pub type KeyPair = (LenPrefixedBytes<VarInt>, LenPrefixedBytes<VarInt>);

/// The fields of an encryption request.
pub type RequestFields = (String, KeyPair);

/// Whether reading the fields of packet `id` of the given state and
/// direction from the front of `buf` aborts: a key or token whose length is
/// negative cannot be allocated.
pub open spec fn spec_packet_read_panics(state: State, dir: Direction, id: i32, buf: Seq<u8>) -> bool {
    &&& state == State::Login
    &&& id == 1
    &&& if dir == Direction::Serverbound {
        <KeyPair as Serializable>::read_panics(buf)
    } else {
        <RequestFields as Serializable>::read_panics(buf)
    }
}

/// Whether reading a packet from `body` (its id, then its fields) aborts.
pub open spec fn spec_body_read_panics(state: State, dir: Direction, body: Seq<u8>) -> bool {
    match <VarInt as Serializable>::spec_parse(body) {
        Some((id, n)) => spec_packet_read_panics(state, dir, id, rest(body, n as int)),
        None => false,
    }
}

/// A packet that can be sent: its id and the encoding of its fields.
pub trait PacketType: Sized {
    spec fn spec_packet_id() -> i32;

    spec fn spec_fields(p: Self) -> Seq<u8>;

    fn packet_id(&self) -> (id: i32)
        ensures
            id == Self::spec_packet_id();

    fn write(self, buf: &mut Vec<u8>) -> (res: Result<(), Error>)
        ensures
            res is Ok,
            final(buf)@ == old(buf)@ + Self::spec_fields(self);
}

impl PacketType for Handshake {
    open spec fn spec_packet_id() -> i32 {
        0
    }

    open spec fn spec_fields(p: Handshake) -> Seq<u8> {
        <Handshake as Serializable>::spec_serialize(p@)
    }

    fn packet_id(&self) -> (id: i32) {
        0
    }

    fn write(self, buf: &mut Vec<u8>) -> (res: Result<(), Error>) {
        let _ = self.write_to(buf);
        Ok(())
    }
}

impl PacketType for StatusRequest {
    open spec fn spec_packet_id() -> i32 {
        0
    }

    open spec fn spec_fields(p: StatusRequest) -> Seq<u8> {
        Seq::empty()
    }

    fn packet_id(&self) -> (id: i32) {
        0
    }

    fn write(self, buf: &mut Vec<u8>) -> (res: Result<(), Error>) {
        let _ = self.empty.write_to(buf);
        Ok(())
    }
}

impl PacketType for StatusPing {
    open spec fn spec_packet_id() -> i32 {
        1
    }

    open spec fn spec_fields(p: StatusPing) -> Seq<u8> {
        <i64 as Serializable>::spec_serialize(p.ping)
    }

    fn packet_id(&self) -> (id: i32) {
        1
    }

    fn write(self, buf: &mut Vec<u8>) -> (res: Result<(), Error>) {
        let _ = self.ping.write_to(buf);
        Ok(())
    }
}

impl PacketType for StatusResponse {
    open spec fn spec_packet_id() -> i32 {
        0
    }

    open spec fn spec_fields(p: StatusResponse) -> Seq<u8> {
        <String as Serializable>::spec_serialize(p.status@)
    }

    fn packet_id(&self) -> (id: i32) {
        0
    }

    fn write(self, buf: &mut Vec<u8>) -> (res: Result<(), Error>) {
        let _ = self.status.write_to(buf);
        Ok(())
    }
}

impl PacketType for StatusPong {
    open spec fn spec_packet_id() -> i32 {
        1
    }

    open spec fn spec_fields(p: StatusPong) -> Seq<u8> {
        <i64 as Serializable>::spec_serialize(p.ping)
    }

    fn packet_id(&self) -> (id: i32) {
        1
    }

    fn write(self, buf: &mut Vec<u8>) -> (res: Result<(), Error>) {
        let _ = self.ping.write_to(buf);
        Ok(())
    }
}

/// The body of a packet to send: its id as a VarInt, then its fields.
pub fn packet_body<P: PacketType>(packet: P) -> (body: Vec<u8>)
    ensures
        body@ == <VarInt as Serializable>::spec_serialize(P::spec_packet_id()) + P::spec_fields(packet),
{
    let mut body: Vec<u8> = Vec::new();
    let _ = VarInt(packet.packet_id()).write_to(&mut body);
    let _ = packet.write(&mut body);
    body
}

/// What reading the fields of packet `id` of the given state and direction
/// from the front of `buf` gives: `None` where the fields do not read,
/// `Some(None)` for an id the state does not have in that direction, else
/// the packet and the number of bytes its fields took.
pub open spec fn spec_packet_by_id(state: State, dir: Direction, id: i32, buf: Seq<u8>) -> Option<Option<(PacketView, nat)>> {
    if state == State::Handshaking && dir == Direction::Serverbound && id == 0 {
        match <Handshake as Serializable>::spec_parse(buf) {
            Some((v, n)) => Some(Some((PacketView::Handshake(v), n))),
            None => None,
        }
    } else if state == State::Status && dir == Direction::Serverbound && id == 0 {
        Some(Some((PacketView::StatusRequest, 0)))
    } else if state == State::Status && dir == Direction::Serverbound && id == 1 {
        match <i64 as Serializable>::spec_parse(buf) {
            Some((v, n)) => Some(Some((PacketView::StatusPing(v), n))),
            None => None,
        }
    } else if state == State::Status && dir == Direction::Clientbound && id == 0 {
        match <String as Serializable>::spec_parse(buf) {
            Some((v, n)) => Some(Some((PacketView::StatusResponse(v), n))),
            None => None,
        }
    } else if state == State::Status && dir == Direction::Clientbound && id == 1 {
        match <i64 as Serializable>::spec_parse(buf) {
            Some((v, n)) => Some(Some((PacketView::StatusPong(v), n))),
            None => None,
        }
    } else if state == State::Login && dir == Direction::Serverbound && id == 0 {
        match <String as Serializable>::spec_parse(buf) {
            Some((v, n)) => Some(Some((PacketView::LoginStart(v), n))),
            None => None,
        }
    } else if state == State::Login && dir == Direction::Serverbound && id == 1 {
        match <KeyPair as Serializable>::spec_parse(buf) {
            Some((v, n)) => Some(Some((PacketView::EncryptionResponse(v), n))),
            None => None,
        }
    } else if state == State::Login && dir == Direction::Clientbound && id == 0 {
        match <String as Serializable>::spec_parse(buf) {
            Some((v, n)) => Some(Some((PacketView::LoginDisconnect(v), n))),
            None => None,
        }
    } else if state == State::Login && dir == Direction::Clientbound && id == 1 {
        match <RequestFields as Serializable>::spec_parse(buf) {
            Some((v, n)) => Some(Some((PacketView::EncryptionRequest(v), n))),
            None => None,
        }
    } else if state == State::Login && dir == Direction::Clientbound && id == 2 {
        match <(String, String) as Serializable>::spec_parse(buf) {
            Some((v, n)) => Some(Some((PacketView::LoginSuccess(v), n))),
            None => None,
        }
    } else if state == State::Login && dir == Direction::Clientbound && id == 3 {
        match <VarInt as Serializable>::spec_parse(buf) {
            Some((v, n)) => Some(Some((PacketView::SetInitialCompression(v), n))),
            None => None,
        }
    } else {
        Some(None)
    }
}

/// Reads the fields of packet `id` of the handshaking, status or login
/// state from `buf` at `pos` (see `spec_packet_by_id`); returns the packet
/// and the position after it.
pub fn packet_by_id(state: State, dir: Direction, id: i32, buf: &[u8], pos: usize) -> (res: Result<Option<(Packet, usize)>, Error>)
    requires
        state != State::Play,
        pos <= buf@.len(),
        !spec_packet_read_panics(state, dir, id, rest(buf@, pos as int)),
    ensures
        match res {
            Ok(Some((p, end))) => pos <= end <= buf@.len()
                && spec_packet_by_id(state, dir, id, rest(buf@, pos as int)) == Some(Some((packet_view(p), (end - pos) as nat))),
            Ok(None) => spec_packet_by_id(state, dir, id, rest(buf@, pos as int)) == Some(None::<(PacketView, nat)>),
            Err(_) => spec_packet_by_id(state, dir, id, rest(buf@, pos as int)) is None,
        },
{
    if state == State::Handshaking && dir == Direction::Serverbound && id == 0 {
        match Handshake::read_from(buf, pos) {
            Ok((h, end)) => Ok(Some((Packet::Handshake(h), end))),
            Err(e) => Err(e),
        }
    } else if state == State::Status && dir == Direction::Serverbound && id == 0 {
        Ok(Some((Packet::StatusRequest(StatusRequest { empty: () }), pos)))
    } else if state == State::Status && dir == Direction::Serverbound && id == 1 {
        match i64::read_from(buf, pos) {
            Ok((v, end)) => Ok(Some((Packet::StatusPing(StatusPing { ping: v }), end))),
            Err(e) => Err(e),
        }
    } else if state == State::Status && dir == Direction::Clientbound && id == 0 {
        match String::read_from(buf, pos) {
            Ok((v, end)) => Ok(Some((Packet::StatusResponse(StatusResponse { status: v }), end))),
            Err(e) => Err(e),
        }
    } else if state == State::Status && dir == Direction::Clientbound && id == 1 {
        match i64::read_from(buf, pos) {
            Ok((v, end)) => Ok(Some((Packet::StatusPong(StatusPong { ping: v }), end))),
            Err(e) => Err(e),
        }
    } else if state == State::Login && dir == Direction::Serverbound && id == 0 {
        match String::read_from(buf, pos) {
            Ok((v, end)) => Ok(Some((Packet::LoginStart(LoginStart { username: v }), end))),
            Err(e) => Err(e),
        }
    } else if state == State::Login && dir == Direction::Serverbound && id == 1 {
        match <KeyPair as Serializable>::read_from(buf, pos) {
            Ok(((shared_secret, verify_token), end)) => Ok(Some((
                Packet::EncryptionResponse(EncryptionResponse { shared_secret, verify_token }),
                end,
            ))),
            Err(e) => Err(e),
        }
    } else if state == State::Login && dir == Direction::Clientbound && id == 0 {
        match String::read_from(buf, pos) {
            Ok((v, end)) => Ok(Some((Packet::LoginDisconnect(LoginDisconnect { reason: v }), end))),
            Err(e) => Err(e),
        }
    } else if state == State::Login && dir == Direction::Clientbound && id == 1 {
        match <RequestFields as Serializable>::read_from(buf, pos) {
            Ok(((server_id, (public_key, verify_token)), end)) => Ok(Some((
                Packet::EncryptionRequest(EncryptionRequest { server_id, public_key, verify_token }),
                end,
            ))),
            Err(e) => Err(e),
        }
    } else if state == State::Login && dir == Direction::Clientbound && id == 2 {
        match <(String, String) as Serializable>::read_from(buf, pos) {
            Ok(((uuid, username), end)) => Ok(Some((Packet::LoginSuccess(LoginSuccess { uuid, username }), end))),
            Err(e) => Err(e),
        }
    } else if state == State::Login && dir == Direction::Clientbound && id == 3 {
        match VarInt::read_from(buf, pos) {
            Ok((threshold, end)) => Ok(Some((
                Packet::SetInitialCompression(SetInitialCompression { threshold }),
                end,
            ))),
            Err(e) => Err(e),
        }
    } else {
        Ok(None)
    }
}

/// The upper-case hexadecimal digits of `n`, without leading zeros.
pub open spec fn upper_hex(n: nat) -> Seq<char>
    decreases n,
{
    if n < 16 {
        seq![crate::format::hex_upper(n as u8)]
    } else {
        upper_hex(n / 16).push(crate::format::hex_upper((n % 16) as u8))
    }
}

/// The message for a packet whose fields did not take all of its body.
pub open spec fn leftover_message(id: i32, left: nat) -> Seq<char> {
    "Failed to read all of packet 0x"@ + upper_hex(id as u32 as nat) + ", had "@ + int_text(left as int) + " bytes left"@
}

fn push_hex(n: u32, out: &mut Vec<char>)
    ensures
        final(out)@ == old(out)@ + upper_hex(n as nat),
    decreases n,
{
    if n >= 16 {
        push_hex(n / 16, out);
    }
    out.push(crate::format::hex_upper_digit((n % 16) as u8));
}

/// Whether reading a VarInt-prefixed byte string at `pos` aborts, and where
/// the string ends when it reads.
fn key_read_check(buf: &[u8], pos: usize) -> (r: (bool, Option<usize>))
    requires
        pos <= buf@.len(),
    ensures
        r.0 == <LenPrefixedBytes<VarInt> as Serializable>::read_panics(rest(buf@, pos as int)),
        !r.0 ==> match <LenPrefixedBytes<VarInt> as Serializable>::spec_parse(rest(buf@, pos as int)) {
            Some((v, n)) => r.1 == Some((pos + n) as usize) && pos + n <= buf@.len(),
            None => r.1 is None,
        },
{
    match VarInt::read_from(buf, pos) {
        Err(_) => (false, None),
        Ok((len, p)) => {
            let l = <VarInt as super::Lengthable>::into(len);
            if l > (isize::MAX as usize) {
                return (true, None);
            }
            let avail = buf.len() - p;
            let count = if l < avail { l } else { avail };
            (false, Some(p + count))
        },
    }
}

/// Whether reading the two byte strings of an encryption response at `pos`
/// aborts.
fn key_pair_read_aborts(buf: &[u8], pos: usize) -> (b: bool)
    requires
        pos <= buf@.len(),
    ensures
        b == <KeyPair as Serializable>::read_panics(rest(buf@, pos as int)),
{
    let ghost r = rest(buf@, pos as int);
    let (first, end) = key_read_check(buf, pos);
    if first {
        return true;
    }
    match end {
        None => {
            assert(<LenPrefixedBytes<VarInt> as Serializable>::spec_parse(r) is None);
            false
        },
        Some(p) => {
            let len = buf.len();
            let ghost parsed = <LenPrefixedBytes<VarInt> as Serializable>::spec_parse(r);
            proof {
                assert(parsed is Some);
                let n = parsed.unwrap().1;
                assert(pos + n <= len);
                assert(p == pos + n);
                assert(r.subrange(n as int, r.len() as int) =~= rest(buf@, p as int));
            }
            key_read_check(buf, p).0
        },
    }
}

/// Whether reading a packet from `body` (its id, then its fields) aborts
/// (see `spec_body_read_panics`).
pub fn body_read_aborts(state: State, dir: Direction, body: &[u8]) -> (b: bool)
    ensures
        b == spec_body_read_panics(state, dir, body@),
{
    proof {
        assert(rest(body@, 0) =~= body@);
    }
    let (id, pos) = match VarInt::read_from(body, 0) {
        Ok(v) => v,
        Err(_) => return false,
    };
    if state != State::Login || id.0 != 1 {
        return false;
    }
    if dir == Direction::Serverbound {
        key_pair_read_aborts(body, pos)
    } else {
        match String::read_from(body, pos) {
            Err(_) => false,
            Ok((_, p)) => {
                proof {
                    let r = rest(body@, pos as int);
                    let n = (p - pos) as int;
                    assert(r.subrange(n, r.len() as int) =~= rest(body@, p as int));
                }
                key_pair_read_aborts(body, p)
            },
        }
    }
}

/// Reads a packet of the handshaking, status or login state from its body
/// (after framing): the id, then the fields, which must take the whole body.
pub fn read_packet_body(state: State, dir: Direction, body: &[u8]) -> (res: Result<Packet, Error>)
    requires
        state != State::Play,
        !spec_body_read_panics(state, dir, body@),
    ensures
        match <VarInt as Serializable>::spec_parse(body@) {
            None => res is Err,
            Some((id, n)) => match spec_packet_by_id(state, dir, id, rest(body@, n as int)) {
                None => res is Err,
                Some(None) => res matches Err(Error::Message(m)) && m@ == "missing packet"@,
                Some(Some((p, k))) => if n + k == body@.len() {
                    res matches Ok(q) && packet_view(q) == p
                } else {
                    res matches Err(Error::Message(m)) && m@ == leftover_message(id, (body@.len() - n - k) as nat)
                },
            },
        },
{
    proof {
        assert(rest(body@, 0) =~= body@);
    }
    let (id, pos) = match VarInt::read_from(body, 0) {
        Ok(v) => v,
        Err(e) => return Err(e),
    };
    match packet_by_id(state, dir, id.0, body, pos) {
        Ok(Some((p, end))) => {
            if end != body.len() {
                let mut m: Vec<char> = Vec::new();
                push_chars(&mut m, "Failed to read all of packet 0x");
                push_hex(id.0 as u32, &mut m);
                push_chars(&mut m, ", had ");
                push_digits((body.len() - end) as u64, &mut m);
                push_chars(&mut m, " bytes left");
                proof {
                    assert(m@ =~= leftover_message(id@, (body@.len() - pos - (end - pos)) as nat));
                }
                Err(Error::Message(string_from_chars(m.as_slice())))
            } else {
                Ok(p)
            }
        },
        Ok(None) => {
            let m = "missing packet".to_owned();
            Err(Error::Message(m))
        },
        Err(e) => Err(e),
    }
}

} // verus!
