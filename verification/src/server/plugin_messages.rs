use vstd::prelude::*;
use crate::protocol::{Error, Serializable, rest};
use crate::protocol::packet::{PluginMessageServerbound, PluginMessageServerbound_i16, after};
use crate::protocol::prefixed::{LenPrefixed, LenPrefixedBytes};
use crate::protocol::varint::VarInt;

verus! {

/// Stage of the Forge (FML) handshake.
#[derive(Clone, Copy, Debug, PartialEq, Eq, Structural)]
pub enum Phase {
    Start,
    WaitingServerData,
    WaitingServerComplete,
    PendingComplete,
    Complete,
}

impl View for Phase {
    type V = Phase;

    open spec fn view(&self) -> Phase {
        *self
    }
}

/// The phase a wire number denotes (2 to 5).
pub open spec fn phase_of(n: i8) -> Phase {
    if n == 2 {
        Phase::WaitingServerData
    } else if n == 3 {
        Phase::WaitingServerComplete
    } else if n == 4 {
        Phase::PendingComplete
    } else {
        Phase::Complete
    }
}

/// The wire number of a phase other than `Start`.
pub open spec fn phase_number(p: Phase) -> u8 {
    match p {
        Phase::Start => 0,
        Phase::WaitingServerData => 2,
        Phase::WaitingServerComplete => 3,
        Phase::PendingComplete => 4,
        Phase::Complete => 5,
    }
}

impl Serializable for Phase {
    open spec fn spec_parse(bytes: Seq<u8>) -> Option<(Phase, nat)> {
        if bytes.len() >= 1 {
            Some((phase_of(bytes[0] as i8), 1))
        } else {
            None
        }
    }

    open spec fn spec_serialize(v: Phase) -> Seq<u8> {
        seq![phase_number(v)]
    }

    /// A number other than 2 to 5 aborts.
    open spec fn read_panics(bytes: Seq<u8>) -> bool {
        bytes.len() >= 1 && !(2 <= (bytes[0] as i8) <= 5)
    }

    /// The start phase is never sent.
    open spec fn write_panics(v: Phase) -> bool {
        v == Phase::Start
    }

    open spec fn round_trips(v: Phase) -> bool {
        v != Phase::Start
    }

    open spec fn self_delimiting() -> bool {
        true
    }

    fn read_from(buf: &[u8], pos: usize) -> (res: Result<(Phase, usize), Error>) {
        let (phase, p) = match <i8 as Serializable>::read_from(buf, pos) {
            Ok(x) => x,
            Err(e) => return Err(e),
        };
        let v = match phase {
            2 => Phase::WaitingServerData,
            3 => Phase::WaitingServerComplete,
            4 => Phase::PendingComplete,
            _ => Phase::Complete,
        };
        Ok((v, p))
    }

    fn write_to(&self, out: &mut Vec<u8>) -> (res: Result<(), Error>) {
        let n: u8 = match self {
            Phase::Start => 0,
            Phase::WaitingServerData => 2,
            Phase::WaitingServerComplete => 3,
            Phase::PendingComplete => 4,
            Phase::Complete => 5,
        };
        n.write_to(out)
    }

    proof fn lemma_round_trip(v: Phase, tail: Seq<u8>) {
        let s = seq![phase_number(v)] + tail;
        assert(s[0] == phase_number(v));
        assert((phase_number(v) as i8) == phase_number(v));
    }
}

/// A mod reported in the Forge handshake.
#[derive(Clone, Debug, Default)]
pub struct ForgeMod {
    pub modid: String,
    pub version: String,
}

impl View for ForgeMod {
    type V = (Seq<char>, Seq<char>);

    open spec fn view(&self) -> (Seq<char>, Seq<char>) {
        (self.modid@, self.version@)
    }
}

impl Serializable for ForgeMod {
    open spec fn spec_parse(bytes: Seq<u8>) -> Option<((Seq<char>, Seq<char>), nat)> {
        <(String, String) as Serializable>::spec_parse(bytes)
    }

    open spec fn spec_serialize(v: (Seq<char>, Seq<char>)) -> Seq<u8> {
        <(String, String) as Serializable>::spec_serialize(v)
    }

    open spec fn read_panics(bytes: Seq<u8>) -> bool {
        false
    }

    open spec fn write_panics(v: (Seq<char>, Seq<char>)) -> bool {
        false
    }

    open spec fn round_trips(v: (Seq<char>, Seq<char>)) -> bool {
        <(String, String) as Serializable>::round_trips(v)
    }

    open spec fn self_delimiting() -> bool {
        true
    }

    fn read_from(buf: &[u8], pos: usize) -> (res: Result<(ForgeMod, usize), Error>) {
        match <(String, String) as Serializable>::read_from(buf, pos) {
            Ok(((modid, version), p)) => Ok((ForgeMod { modid, version }, p)),
            Err(e) => Err(e),
        }
    }

    fn write_to(&self, out: &mut Vec<u8>) -> (res: Result<(), Error>) {
        let _ = self.modid.write_to(out);
        let _ = self.version.write_to(out);
        proof {
            assert(out@ =~= old(out)@ + <(String, String) as Serializable>::spec_serialize(self@));
        }
        Ok(())
    }

    proof fn lemma_round_trip(v: (Seq<char>, Seq<char>), tail: Seq<u8>) {
        <(String, String) as Serializable>::lemma_round_trip(v, tail);
    }
}

/// A registry entry in the Forge handshake: a name and its numeric id.
#[derive(Debug)]
pub struct Id {
    pub name: String,
    pub id: VarInt,
}

impl View for Id {
    type V = (Seq<char>, i32);

    open spec fn view(&self) -> (Seq<char>, i32) {
        (self.name@, self.id@)
    }
}

impl Serializable for Id {
    open spec fn spec_parse(bytes: Seq<u8>) -> Option<((Seq<char>, i32), nat)> {
        <(String, VarInt) as Serializable>::spec_parse(bytes)
    }

    open spec fn spec_serialize(v: (Seq<char>, i32)) -> Seq<u8> {
        <(String, VarInt) as Serializable>::spec_serialize(v)
    }

    open spec fn read_panics(bytes: Seq<u8>) -> bool {
        false
    }

    open spec fn write_panics(v: (Seq<char>, i32)) -> bool {
        false
    }

    open spec fn round_trips(v: (Seq<char>, i32)) -> bool {
        <(String, VarInt) as Serializable>::round_trips(v)
    }

    open spec fn self_delimiting() -> bool {
        true
    }

    fn read_from(buf: &[u8], pos: usize) -> (res: Result<(Id, usize), Error>) {
        match <(String, VarInt) as Serializable>::read_from(buf, pos) {
            Ok(((name, id), p)) => Ok((Id { name, id }, p)),
            Err(e) => Err(e),
        }
    }

    fn write_to(&self, out: &mut Vec<u8>) -> (res: Result<(), Error>) {
        let _ = self.name.write_to(out);
        let _ = self.id.write_to(out);
        proof {
            assert(out@ =~= old(out)@ + <(String, VarInt) as Serializable>::spec_serialize(self@));
        }
        Ok(())
    }

    proof fn lemma_round_trip(v: (Seq<char>, i32), tail: Seq<u8>) {
        <(String, VarInt) as Serializable>::lemma_round_trip(v, tail);
    }
}

/// The fields of a registry data message, in wire order.
pub type RegistryFields = (bool, (String, (LenPrefixed<VarInt, Id>, (LenPrefixed<VarInt, String>, LenPrefixed<VarInt, String>))));

/// A message of the Forge handshake channel (FML|HS).
#[derive(Debug)]
pub enum FmlHs {
    ServerHello {
        fml_protocol_version: i8,
        override_dimension: Option<i32>,
    },
    ClientHello {
        fml_protocol_version: i8,
    },
    ModList {
        mods: LenPrefixed<VarInt, ForgeMod>,
    },
    RegistryData {
        has_more: bool,
        name: String,
        ids: LenPrefixed<VarInt, Id>,
        substitutions: LenPrefixed<VarInt, String>,
        dummies: LenPrefixed<VarInt, String>,
    },
    HandshakeAck {
        phase: Phase,
    },
    HandshakeReset,
}

/// Plain-value form of an FML|HS message.
pub enum FmlHsView {
    ServerHello { fml_protocol_version: i8, override_dimension: Option<i32> },
    ClientHello { fml_protocol_version: i8 },
    ModList { mods: Seq<(Seq<char>, Seq<char>)> },
    RegistryData {
        has_more: bool,
        name: Seq<char>,
        ids: Seq<(Seq<char>, i32)>,
        substitutions: Seq<Seq<char>>,
        dummies: Seq<Seq<char>>,
    },
    HandshakeAck { phase: Phase },
    HandshakeReset,
}

impl View for FmlHs {
    type V = FmlHsView;

    open spec fn view(&self) -> FmlHsView {
        match self {
            FmlHs::ServerHello { fml_protocol_version, override_dimension } => FmlHsView::ServerHello {
                fml_protocol_version: *fml_protocol_version,
                override_dimension: *override_dimension,
            },
            FmlHs::ClientHello { fml_protocol_version } => FmlHsView::ClientHello {
                fml_protocol_version: *fml_protocol_version,
            },
            FmlHs::ModList { mods } => FmlHsView::ModList { mods: mods@ },
            FmlHs::RegistryData { has_more, name, ids, substitutions, dummies } => FmlHsView::RegistryData {
                has_more: *has_more,
                name: name@,
                ids: ids@,
                substitutions: substitutions@,
                dummies: dummies@,
            },
            FmlHs::HandshakeAck { phase } => FmlHsView::HandshakeAck { phase: *phase },
            FmlHs::HandshakeReset => FmlHsView::HandshakeReset,
        }
    }
}

/// The body of a server hello after its discriminator: the protocol version
/// and, from version 2 on, the dimension override.
pub open spec fn server_hello_parse(b: Seq<u8>) -> Option<(FmlHsView, nat)> {
    match <i8 as Serializable>::spec_parse(b) {
        Some((version, n)) => if version > 1 {
            match <i32 as Serializable>::spec_parse(after(b, n)) {
                Some((dim, m)) => Some((FmlHsView::ServerHello { fml_protocol_version: version, override_dimension: Some(dim) }, n + m)),
                None => None,
            }
        } else {
            Some((FmlHsView::ServerHello { fml_protocol_version: version, override_dimension: None }, n))
        },
        None => None,
    }
}

/// The body of a message after its discriminator byte `d`.
pub open spec fn fml_body_parse(d: u8, b: Seq<u8>) -> Option<(FmlHsView, nat)> {
    if d == 0 {
        server_hello_parse(b)
    } else if d == 2 {
        match <LenPrefixed<VarInt, ForgeMod> as Serializable>::spec_parse(b) {
            Some((mods, n)) => Some((FmlHsView::ModList { mods }, n)),
            None => None,
        }
    } else {
        match <RegistryFields as Serializable>::spec_parse(b) {
            Some(((has_more, (name, (ids, (substitutions, dummies)))), n)) => Some((
                FmlHsView::RegistryData { has_more, name, ids, substitutions, dummies },
                n,
            )),
            None => None,
        }
    }
}

/// The bytes that writing a message produces (for the messages the client sends).
pub open spec fn fml_serialize(v: FmlHsView) -> Seq<u8> {
    match v {
        FmlHsView::ClientHello { fml_protocol_version } => seq![1u8] + <i8 as Serializable>::spec_serialize(fml_protocol_version),
        FmlHsView::ModList { mods } => seq![2u8] + <LenPrefixed<VarInt, ForgeMod> as Serializable>::spec_serialize(mods),
        FmlHsView::HandshakeAck { phase } => seq![255u8] + <Phase as Serializable>::spec_serialize(phase),
        _ => Seq::empty(),
    }
}

impl Serializable for FmlHs {
    open spec fn spec_parse(bytes: Seq<u8>) -> Option<(FmlHsView, nat)> {
        if bytes.len() >= 1 {
            match fml_body_parse(bytes[0], after(bytes, 1)) {
                Some((v, n)) => Some((v, n + 1)),
                None => None,
            }
        } else {
            None
        }
    }

    open spec fn spec_serialize(v: FmlHsView) -> Seq<u8> {
        fml_serialize(v)
    }

    /// A client hello from the server, or an unknown discriminator, aborts;
    /// so does a list whose length overflows the allocation.
    open spec fn read_panics(bytes: Seq<u8>) -> bool {
        bytes.len() >= 1 && (bytes[0] == 1 || bytes[0] > 3
            || (bytes[0] == 2 && <LenPrefixed<VarInt, ForgeMod> as Serializable>::read_panics(after(bytes, 1)))
            || (bytes[0] == 3 && <RegistryFields as Serializable>::read_panics(after(bytes, 1))))
    }

    /// Only client hello, mod list and handshake acknowledgement messages can be written.
    open spec fn write_panics(v: FmlHsView) -> bool {
        match v {
            FmlHsView::ClientHello { .. } => false,
            FmlHsView::ModList { mods } => <LenPrefixed<VarInt, ForgeMod> as Serializable>::write_panics(mods),
            FmlHsView::HandshakeAck { phase } => phase == Phase::Start,
            _ => true,
        }
    }

    /// Of the messages a client writes, only the mod list is one the reader accepts.
    open spec fn round_trips(v: FmlHsView) -> bool {
        match v {
            FmlHsView::ModList { mods } => <LenPrefixed<VarInt, ForgeMod> as Serializable>::round_trips(mods),
            _ => false,
        }
    }

    open spec fn self_delimiting() -> bool {
        true
    }

    fn read_from(buf: &[u8], pos: usize) -> (res: Result<(FmlHs, usize), Error>) {
        let ghost r = rest(buf@, pos as int);
        let (discriminator, p) = match <u8 as Serializable>::read_from(buf, pos) {
            Ok(x) => x,
            Err(e) => return Err(e),
        };
        proof {
            assert(after(r, 1) =~= rest(buf@, p as int));
        }
        if discriminator == 0 {
            let (fml_protocol_version, p2) = match <i8 as Serializable>::read_from(buf, p) {
                Ok(x) => x,
                Err(e) => return Err(e),
            };
            if fml_protocol_version > 1 {
                proof {
                    assert(after(rest(buf@, p as int), 1) =~= rest(buf@, p2 as int));
                }
                let (dimension, p3) = match <i32 as Serializable>::read_from(buf, p2) {
                    Ok(x) => x,
                    Err(e) => return Err(e),
                };
                Ok((FmlHs::ServerHello { fml_protocol_version, override_dimension: Some(dimension) }, p3))
            } else {
                Ok((FmlHs::ServerHello { fml_protocol_version, override_dimension: None }, p2))
            }
        } else if discriminator == 2 {
            match <LenPrefixed<VarInt, ForgeMod> as Serializable>::read_from(buf, p) {
                Ok((mods, p2)) => Ok((FmlHs::ModList { mods }, p2)),
                Err(e) => Err(e),
            }
        } else {
            match <RegistryFields as Serializable>::read_from(buf, p) {
                Ok(((has_more, (name, (ids, (substitutions, dummies)))), p2)) => Ok((
                    FmlHs::RegistryData { has_more, name, ids, substitutions, dummies },
                    p2,
                )),
                Err(e) => Err(e),
            }
        }
    }

    fn write_to(&self, out: &mut Vec<u8>) -> (res: Result<(), Error>) {
        match self {
            FmlHs::ClientHello { fml_protocol_version } => {
                out.push(1);
                let ghost mid = out@;
                let _ = fml_protocol_version.write_to(out);
                proof {
                    assert(out@ =~= old(out)@ + fml_serialize(self@));
                }
                Ok(())
            },
            FmlHs::ModList { mods } => {
                out.push(2);
                let _ = mods.write_to(out);
                proof {
                    assert(out@ =~= old(out)@ + fml_serialize(self@));
                }
                Ok(())
            },
            FmlHs::HandshakeAck { phase } => {
                out.push(255);
                let _ = phase.write_to(out);
                proof {
                    assert(out@ =~= old(out)@ + fml_serialize(self@));
                }
                Ok(())
            },
            _ => Ok(()),
        }
    }

    proof fn lemma_round_trip(v: FmlHsView, tail: Seq<u8>) {
        if let FmlHsView::ModList { mods } = v {
            let body = <LenPrefixed<VarInt, ForgeMod> as Serializable>::spec_serialize(mods);
            <LenPrefixed<VarInt, ForgeMod> as Serializable>::lemma_round_trip(mods, tail);
            let s = fml_serialize(v) + tail;
            assert(s =~= seq![2u8] + (body + tail));
            assert(after(s, 1) =~= body + tail);
        }
    }
}

/// The client brand sent to servers.
pub struct Brand {
    pub brand: String,
}

impl Brand {
    /// The brand as a plugin message: the channel is `minecraft:brand` from
    /// protocol 404 on and `MC|Brand` before; the data is the encoded brand.
    pub fn as_message(self, protocol_version: i32) -> (m: PluginMessageServerbound)
        ensures
            m@.0 == (if protocol_version >= 404 { "minecraft:brand"@ } else { "MC|Brand"@ }),
            m@.1 == <String as Serializable>::spec_serialize(self.brand@),
    {
        let channel_name = if protocol_version >= 404 { "minecraft:brand" } else { "MC|Brand" };
        let mut data: Vec<u8> = Vec::new();
        let _ = self.brand.write_to(&mut data);
        proof {
            assert(data@ =~= <String as Serializable>::spec_serialize(self.brand@));
        }
        PluginMessageServerbound { channel: channel_name.to_owned(), data }
    }

    /// The brand as a 1.7 plugin message on `MC|Brand`, the data carrying a 16-bit length.
    pub fn as_message17(self) -> (m: PluginMessageServerbound_i16)
        ensures
            m@.0 == "MC|Brand"@,
            m@.1 == <String as Serializable>::spec_serialize(self.brand@),
    {
        let mut data: Vec<u8> = Vec::new();
        let _ = self.brand.write_to(&mut data);
        proof {
            assert(data@ =~= <String as Serializable>::spec_serialize(self.brand@));
        }
        PluginMessageServerbound_i16 {
            channel: "MC|Brand".to_owned(),
            data: LenPrefixedBytes::<i16>::new(data),
        }
    }
}

} // verus!
