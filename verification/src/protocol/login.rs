use vstd::prelude::*;
use super::{Error, Serializable};
use super::prefixed::LenPrefixedBytes;
use super::varint::VarInt;
use super::status::{Packet, PacketType, PacketView, packet_view};
use super::packet::Handshake;
use crate::text::{chars_of, push_chars, string_from_chars};

verus! {

/// LoginStart is sent right after switching to the login state; in online
/// mode the server authenticates the player by this name.
#[derive(Debug, Default)]
pub struct LoginStart {
    pub username: String,
}

/// EncryptionResponse answers an EncryptionRequest: the key of the AES/CFB8
/// cipher and the request's verify token, each encrypted with the server's
/// public key. Every packet after it is encrypted.
#[derive(Debug)]
pub struct EncryptionResponse {
    pub shared_secret: LenPrefixedBytes<VarInt>,
    pub verify_token: LenPrefixedBytes<VarInt>,
}

/// LoginDisconnect is sent by the server when it refuses the player; the
/// reason is chat text as JSON.
#[derive(Debug, Default)]
pub struct LoginDisconnect {
    pub reason: String,
}

/// EncryptionRequest is sent by a server in online mode: its id (mostly
/// empty), its RSA public key (DER) and a token to check the encryption by.
#[derive(Debug)]
pub struct EncryptionRequest {
    pub server_id: String,
    pub public_key: LenPrefixedBytes<VarInt>,
    pub verify_token: LenPrefixedBytes<VarInt>,
}

/// LoginSuccess is sent by the server once the player is authenticated (or
/// right after LoginStart in offline mode): the uuid as text, with hyphens,
/// and the name.
#[derive(Debug, Default)]
pub struct LoginSuccess {
    pub uuid: String,
    pub username: String,
}

/// SetInitialCompression sets the size from which packets are compressed.
#[derive(Debug)]
pub struct SetInitialCompression {
    pub threshold: VarInt,
}

impl PacketType for LoginStart {
    open spec fn spec_packet_id() -> i32 {
        0
    }

    open spec fn spec_fields(p: LoginStart) -> Seq<u8> {
        <String as Serializable>::spec_serialize(p.username@)
    }

    fn packet_id(&self) -> (id: i32) {
        0
    }

    fn write(self, buf: &mut Vec<u8>) -> (res: Result<(), Error>) {
        let _ = self.username.write_to(buf);
        Ok(())
    }
}

impl PacketType for EncryptionResponse {
    open spec fn spec_packet_id() -> i32 {
        1
    }

    open spec fn spec_fields(p: EncryptionResponse) -> Seq<u8> {
        <LenPrefixedBytes<VarInt> as Serializable>::spec_serialize(p.shared_secret@)
            + <LenPrefixedBytes<VarInt> as Serializable>::spec_serialize(p.verify_token@)
    }

    fn packet_id(&self) -> (id: i32) {
        1
    }

    fn write(self, buf: &mut Vec<u8>) -> (res: Result<(), Error>) {
        let _ = self.shared_secret.write_to(buf);
        let _ = self.verify_token.write_to(buf);
        proof {
            assert(buf@ =~= old(buf)@ + Self::spec_fields(self));
        }
        Ok(())
    }
}


/// What the client does on a packet that arrives while it logs in.
#[derive(Debug)]
pub enum LoginStep {
    /// Packets of this size and up are compressed from now on, both ways.
    SetCompression(i32),
    /// The server is in online mode: the client encrypts the connection for
    /// it, with the server's id, public key and verify token.
    Encrypt { server_id: String, public_key: Vec<u8>, verify_token: Vec<u8> },
    /// The player is logged in and play starts.
    Success { uuid: String, username: String },
    /// The server refused the player, for this reason (chat text as JSON).
    Disconnected { reason: String },
}

/// A login step, as a mathematical value.
pub enum LoginStepView {
    SetCompression(i32),
    Encrypt(Seq<char>, Seq<u8>, Seq<u8>),
    Success(Seq<char>, Seq<char>),
    Disconnected(Seq<char>),
}

impl View for LoginStep {
    type V = LoginStepView;

    open spec fn view(&self) -> LoginStepView {
        match self {
            LoginStep::SetCompression(t) => LoginStepView::SetCompression(*t),
            LoginStep::Encrypt { server_id, public_key, verify_token } =>
                LoginStepView::Encrypt(server_id@, public_key@, verify_token@),
            LoginStep::Success { uuid, username } => LoginStepView::Success(uuid@, username@),
            LoginStep::Disconnected { reason } => LoginStepView::Disconnected(reason@),
        }
    }
}

/// The name of a packet, as the error for an unexpected one shows it.
pub open spec fn packet_name(p: PacketView) -> Seq<char> {
    match p {
        PacketView::Handshake(_) => "Handshake"@,
        PacketView::StatusRequest => "StatusRequest"@,
        PacketView::StatusPing(_) => "StatusPing"@,
        PacketView::StatusResponse(_) => "StatusResponse"@,
        PacketView::StatusPong(_) => "StatusPong"@,
        PacketView::LoginStart(_) => "LoginStart"@,
        PacketView::EncryptionResponse(_) => "EncryptionResponse"@,
        PacketView::LoginDisconnect(_) => "LoginDisconnect"@,
        PacketView::EncryptionRequest(_) => "EncryptionRequest"@,
        PacketView::LoginSuccess(_) => "LoginSuccess"@,
        PacketView::SetInitialCompression(_) => "SetInitialCompression"@,
    }
}

/// What the client does on a packet during login. Before the connection is
/// encrypted the server may ask for encryption; after it, only compression,
/// success and refusal are expected.
pub open spec fn spec_login_step(encrypted: bool, p: PacketView) -> Option<LoginStepView> {
    match p {
        PacketView::SetInitialCompression(t) => Some(LoginStepView::SetCompression(t)),
        PacketView::EncryptionRequest((id, (key, token))) => if encrypted {
            None
        } else {
            Some(LoginStepView::Encrypt(id, key, token))
        },
        PacketView::LoginSuccess((uuid, name)) => Some(LoginStepView::Success(uuid, name)),
        PacketView::LoginDisconnect(reason) => Some(LoginStepView::Disconnected(reason)),
        _ => None,
    }
}

/// The error for a packet that is not expected during login.
fn wrong_packet(name: &str) -> (e: Error)
    ensures
        e matches Error::Message(m) && m@ == "Wrong packet: "@ + name@,
{
    let mut m: Vec<char> = Vec::new();
    push_chars(&mut m, "Wrong packet: ");
    push_chars(&mut m, name);
    Error::Message(string_from_chars(m.as_slice()))
}

/// What each login packet leads to, field by field: a compression packet
/// sets its threshold; an encryption request (only before encryption is on)
/// hands on the server id, key and token; a login success carries the
/// packet's uuid as the uuid and its user name as the user name; a
/// disconnect carries its reason; any other packet is unexpected.
pub proof fn lemma_login_step_effects(encrypted: bool, p: Packet)
    ensures
        match p {
            Packet::SetInitialCompression(q) => spec_login_step(encrypted, packet_view(p))
                == Some(LoginStepView::SetCompression(q.threshold.0)),
            Packet::EncryptionRequest(q) => spec_login_step(encrypted, packet_view(p)) == if encrypted {
                None
            } else {
                Some(LoginStepView::Encrypt(q.server_id@, q.public_key@, q.verify_token@))
            },
            Packet::LoginSuccess(q) => spec_login_step(encrypted, packet_view(p))
                == Some(LoginStepView::Success(q.uuid@, q.username@)),
            Packet::LoginDisconnect(q) => spec_login_step(encrypted, packet_view(p))
                == Some(LoginStepView::Disconnected(q.reason@)),
            _ => spec_login_step(encrypted, packet_view(p)) is None,
        },
{
}

/// What the client does on `packet` during login, the connection being
/// encrypted already or not (see `spec_login_step`); an unexpected packet is
/// an error that names it.
pub fn login_step(encrypted: bool, packet: Packet) -> (r: Result<LoginStep, Error>)
    ensures
        match spec_login_step(encrypted, packet_view(packet)) {
            Some(s) => r matches Ok(step) && step@ == s,
            None => r matches Err(Error::Message(m)) && m@ == "Wrong packet: "@ + packet_name(packet_view(packet)),
        },
        packet matches Packet::LoginSuccess(q) ==> (r matches Ok(LoginStep::Success { uuid, username })
            && uuid@ == q.uuid@ && username@ == q.username@),
{
    match packet {
        Packet::SetInitialCompression(p) => Ok(LoginStep::SetCompression(p.threshold.0)),
        Packet::EncryptionRequest(p) => {
            if encrypted {
                Err(wrong_packet("EncryptionRequest"))
            } else {
                let EncryptionRequest { server_id, public_key, verify_token } = p;
                Ok(LoginStep::Encrypt {
                    server_id,
                    public_key: public_key.into_bytes(),
                    verify_token: verify_token.into_bytes(),
                })
            }
        },
        Packet::LoginSuccess(p) => Ok(LoginStep::Success { uuid: p.uuid, username: p.username }),
        Packet::LoginDisconnect(p) => Ok(LoginStep::Disconnected { reason: p.reason }),
        Packet::Handshake(_) => Err(wrong_packet("Handshake")),
        Packet::StatusRequest(_) => Err(wrong_packet("StatusRequest")),
        Packet::StatusPing(_) => Err(wrong_packet("StatusPing")),
        Packet::StatusResponse(_) => Err(wrong_packet("StatusResponse")),
        Packet::StatusPong(_) => Err(wrong_packet("StatusPong")),
        Packet::LoginStart(_) => Err(wrong_packet("LoginStart")),
        Packet::EncryptionResponse(_) => Err(wrong_packet("EncryptionResponse")),
    }
}

/// The handshake that starts a login to `host:port`; a client with Forge
/// mods marks the host with `\0FML\0`.
pub fn login_handshake(protocol_version: i32, host: &str, port: u16, forge: bool) -> (h: Handshake)
    ensures
        h@ == (protocol_version, (if forge { host@ + "\0FML\0"@ } else { host@ }, (port, 2i32))),
{
    let mut chars = chars_of(host);
    if forge {
        push_chars(&mut chars, "\0FML\0");
    }
    Handshake {
        protocol_version: VarInt(protocol_version),
        host: string_from_chars(chars.as_slice()),
        port,
        next: VarInt(2),
    }
}

} // verus!
