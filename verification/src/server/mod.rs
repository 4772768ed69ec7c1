use vstd::prelude::*;
use crate::protocol::{Serializable, rest};
use crate::protocol::prefixed::LenPrefixed;
use crate::protocol::varint::VarInt;
use crate::text::{chars_of, str_eq};
use plugin_messages::{FmlHs, FmlHsView, ForgeMod, Phase, fml_serialize};

pub mod plugin_messages;
pub mod players;

verus! {

/// The game mode of a player.
#[derive(Clone, Copy, Debug, PartialEq, Eq, Structural)]
pub enum Gamemode {
    Survival,
    Creative,
    Adventure,
    Spectator,
}

impl Gamemode {
    /// The game mode with the given protocol number; unknown numbers are survival.
    pub fn from_int(val: i32) -> (g: Gamemode)
        ensures
            g == (if val == 3 { Gamemode::Spectator } else if val == 2 { Gamemode::Adventure } else if val == 1 {
                Gamemode::Creative
            } else {
                Gamemode::Survival
            }),
    {
        match val {
            3 => Gamemode::Spectator,
            2 => Gamemode::Adventure,
            1 => Gamemode::Creative,
            _ => Gamemode::Survival,
        }
    }

    /// Whether the mode lets the player fly: creative and spectator.
    pub fn can_fly(&self) -> (b: bool)
        ensures
            b == (*self == Gamemode::Creative || *self == Gamemode::Spectator),
    {
        match *self {
            Gamemode::Creative | Gamemode::Spectator => true,
            _ => false,
        }
    }

    /// Whether the player is always flying: spectator only.
    pub fn always_fly(&self) -> (b: bool)
        ensures
            b == (*self == Gamemode::Spectator),
    {
        match *self {
            Gamemode::Spectator => true,
            _ => false,
        }
    }

    /// Whether the player passes through blocks: spectator only.
    pub fn noclip(&self) -> (b: bool)
        ensures
            b == (*self == Gamemode::Spectator),
    {
        match *self {
            Gamemode::Spectator => true,
            _ => false,
        }
    }
}


/// The channels a Forge client registers, separated by zero bytes.
pub open spec fn forge_channels() -> Seq<u8> {
    "FML|HS\0FML\0FML|MP\0FML\0FORGE"@.map_values(|c: char| c as u8)
}

/// The answer to an FML|HS handshake message `msg` from the server, given
/// the mods the client has: the plugin messages to send, in order, as
/// channel and data, and the block ids the message registers.
pub open spec fn fml_reply(msg: FmlHsView, mods: Seq<(Seq<char>, Seq<char>)>)
    -> (Seq<(Seq<char>, Seq<u8>)>, Seq<(usize, Seq<char>)>)
{
    match msg {
        FmlHsView::ServerHello { fml_protocol_version, .. } => (
            seq![
                ("REGISTER"@, forge_channels()),
                ("FML|HS"@, fml_serialize(FmlHsView::ClientHello { fml_protocol_version })),
                ("FML|HS"@, fml_serialize(FmlHsView::ModList { mods })),
            ],
            Seq::empty(),
        ),
        FmlHsView::ModList { .. } => (
            seq![("FML|HS"@, fml_serialize(FmlHsView::HandshakeAck { phase: Phase::WaitingServerData }))],
            Seq::empty(),
        ),
        FmlHsView::RegistryData { has_more, name, ids, .. } => (
            if has_more {
                Seq::empty()
            } else {
                seq![("FML|HS"@, fml_serialize(FmlHsView::HandshakeAck { phase: Phase::WaitingServerComplete }))]
            },
            if name == "minecraft:blocks"@ {
                ids.map_values(|e: (Seq<char>, i32)| (e.1 as usize, e.0))
            } else {
                Seq::empty()
            },
        ),
        _ => (Seq::empty(), Seq::empty()),
    }
}

/// How the client answers each handshake message. Only a registry-data
/// message for the `minecraft:blocks` registry yields block ids, one per
/// registry entry, in order, as the entry's id and name; every other message
/// yields none. A server hello is answered by registering the Forge channels,
/// a client hello with the same protocol version and the client's mod list;
/// a mod list by acknowledging with the "waiting for server data" phase;
/// registry data, once the last part has come (`has_more` false), by
/// acknowledging with the "waiting for server complete" phase, and not
/// before; anything else gets no answer.
pub proof fn lemma_fml_reply_effects(msg: FmlHsView, mods: Seq<(Seq<char>, Seq<char>)>)
    ensures
        ({
            let (messages, block_ids) = fml_reply(msg, mods);
            &&& !(msg matches FmlHsView::RegistryData { name, .. } && name == "minecraft:blocks"@)
                ==> block_ids.len() == 0
            &&& msg matches FmlHsView::RegistryData { name, ids, .. } ==> (name == "minecraft:blocks"@ ==> ({
                &&& block_ids.len() == ids.len()
                &&& forall|i: int| 0 <= i < ids.len() ==> #[trigger] block_ids[i] == (ids[i].1 as usize, ids[i].0)
            }))
            &&& msg matches FmlHsView::RegistryData { has_more, .. } ==> ({
                &&& has_more ==> messages.len() == 0
                &&& !has_more ==> messages == seq![("FML|HS"@, fml_serialize(FmlHsView::HandshakeAck { phase: Phase::WaitingServerComplete }))]
            })
            &&& msg matches FmlHsView::ServerHello { fml_protocol_version, .. } ==> messages == seq![
                ("REGISTER"@, forge_channels()),
                ("FML|HS"@, fml_serialize(FmlHsView::ClientHello { fml_protocol_version })),
                ("FML|HS"@, fml_serialize(FmlHsView::ModList { mods })),
            ]
            &&& msg is ModList ==> messages == seq![("FML|HS"@, fml_serialize(FmlHsView::HandshakeAck { phase: Phase::WaitingServerData }))]
            &&& (msg is ClientHello || msg is HandshakeAck || msg is HandshakeReset) ==> messages.len() == 0
        }),
{
    let (messages, block_ids) = fml_reply(msg, mods);
    if let FmlHsView::RegistryData { name, ids, .. } = msg {
        if name == "minecraft:blocks"@ {
            assert forall|i: int| 0 <= i < ids.len() implies #[trigger] block_ids[i] == (ids[i].1 as usize, ids[i].0) by {}
        }
    }
}

/// What the client does about a plugin message from the server.
pub struct PluginReply {
    /// The plugin messages to send, in order: channel and data.
    pub messages: Vec<(String, Vec<u8>)>,
    /// Block ids registered by mods, with their names, in order.
    pub block_ids: Vec<(usize, String)>,
}

impl View for PluginReply {
    type V = (Seq<(Seq<char>, Seq<u8>)>, Seq<(usize, Seq<char>)>);

    open spec fn view(&self) -> Self::V {
        (
            self.messages@.map_values(|m: (String, Vec<u8>)| (m.0@, m.1@)),
            self.block_ids@.map_values(|b: (usize, String)| (b.0, b.1@)),
        )
    }
}

/// The message for `channel` with the encoding of `msg`.
fn fml_message(msg: FmlHs) -> (m: (String, Vec<u8>))
    requires
        !<FmlHs as Serializable>::write_panics(msg@),
    ensures
        m.0@ == "FML|HS"@,
        m.1@ == fml_serialize(msg@),
{
    let mut data: Vec<u8> = Vec::new();
    let _ = msg.write_to(&mut data);
    ("FML|HS".to_owned(), data)
}

/// A copy of the mod list.
fn copy_mods(mods: &[ForgeMod]) -> (r: Vec<ForgeMod>)
    ensures
        r@.map_values(|m: ForgeMod| m@) == mods@.map_values(|m: ForgeMod| m@),
{
    let mut r: Vec<ForgeMod> = Vec::new();
    let mut i: usize = 0;
    while i < mods.len()
        invariant
            i <= mods@.len(),
            r@.len() == i,
            forall|j: int| 0 <= j < i ==> (#[trigger] r@[j])@ == mods@[j]@,
        decreases mods@.len() - i,
    {
        r.push(ForgeMod { modid: mods[i].modid.clone(), version: mods[i].version.clone() });
        i = i + 1;
    }
    proof {
        assert(r@.map_values(|m: ForgeMod| m@) =~= mods@.map_values(|m: ForgeMod| m@));
    }
    r
}

/// The bytes naming the channels a Forge client registers.
fn forge_channel_bytes() -> (b: Vec<u8>)
    ensures
        b@ == forge_channels(),
{
    let chars = chars_of("FML|HS\0FML\0FML|MP\0FML\0FORGE");
    let mut b: Vec<u8> = Vec::new();
    let mut i: usize = 0;
    proof {
        reveal_strlit("FML|HS\0FML\0FML|MP\0FML\0FORGE");
    }
    while i < chars.len()
        invariant
            chars@ == "FML|HS\0FML\0FML|MP\0FML\0FORGE"@,
            forall|j: int| 0 <= j < chars@.len() ==> (chars@[j] as u32) < 128,
            i <= chars@.len(),
            b@ == chars@.subrange(0, i as int).map_values(|c: char| c as u8),
        decreases chars@.len() - i,
    {
        b.push(chars[i] as u8);
        proof {
            assert(chars@.subrange(0, i + 1).map_values(|c: char| c as u8)
                =~= chars@.subrange(0, i as int).map_values(|c: char| c as u8).push(chars@[i as int] as u8));
        }
        i = i + 1;
    }
    proof {
        assert(chars@.subrange(0, chars@.len() as int) =~= chars@);
    }
    b
}

/// What the client does about a plugin message on `channel` carrying
/// `data`, given the mods it has: only the Forge handshake channel
/// (FML|HS) is answered.
pub fn on_plugin_message(channel: &str, data: &[u8], forge_mods: &[ForgeMod]) -> (r: PluginReply)
    requires
        channel@ == "FML|HS"@ ==> {
            &&& <FmlHs as Serializable>::spec_parse(data@) is Some
            &&& !<FmlHs as Serializable>::read_panics(data@)
        },
    ensures
        channel@ != "FML|HS"@ ==> r@ == (Seq::<(Seq<char>, Seq<u8>)>::empty(), Seq::<(usize, Seq<char>)>::empty()),
        channel@ == "FML|HS"@ ==> r@ == fml_reply(
            (<FmlHs as Serializable>::spec_parse(data@)->0).0,
            forge_mods@.map_values(|m: ForgeMod| m@),
        ),
{
    let mut messages: Vec<(String, Vec<u8>)> = Vec::new();
    let mut block_ids: Vec<(usize, String)> = Vec::new();
    if !str_eq(channel, "FML|HS") {
        let r = PluginReply { messages, block_ids };
        proof {
            assert(r@.0 =~= Seq::<(Seq<char>, Seq<u8>)>::empty());
            assert(r@.1 =~= Seq::<(usize, Seq<char>)>::empty());
        }
        return r;
    }
    proof {
        assert(rest(data@, 0) =~= data@);
    }
    let msg = match <FmlHs as Serializable>::read_from(data, 0) {
        Ok((m, _)) => m,
        Err(_) => {
            proof {
                assert(false);
            }
            return PluginReply { messages, block_ids };
        },
    };
    let ghost mods_view = forge_mods@.map_values(|m: ForgeMod| m@);
    let ghost expected = fml_reply(msg@, mods_view);
    match msg {
        FmlHs::ServerHello { fml_protocol_version, .. } => {
            messages.push(("REGISTER".to_owned(), forge_channel_bytes()));
            messages.push(fml_message(FmlHs::ClientHello { fml_protocol_version }));
            let mods = LenPrefixed::<VarInt, ForgeMod>::new(copy_mods(forge_mods));
            messages.push(fml_message(FmlHs::ModList { mods }));
        },
        FmlHs::ModList { .. } => {
            messages.push(fml_message(FmlHs::HandshakeAck { phase: Phase::WaitingServerData }));
        },
        FmlHs::RegistryData { has_more, name, ids, .. } => {
            if str_eq(name.as_str(), "minecraft:blocks") {
                let mut i: usize = 0;
                let entries = ids.items();
                while i < entries.len()
                    invariant
                        i <= entries@.len(),
                        block_ids@.len() == i,
                        entries@.map_values(|x: plugin_messages::Id| x@) == ids@,
                        forall|j: int| 0 <= j < i ==> (#[trigger] block_ids@[j]).0 == (entries@[j].id@ as usize)
                            && block_ids@[j].1@ == entries@[j].name@,
                    decreases entries@.len() - i,
                {
                    block_ids.push((entries[i].id.0 as usize, entries[i].name.clone()));
                    i = i + 1;
                }
            }
            if !has_more {
                messages.push(fml_message(FmlHs::HandshakeAck { phase: Phase::WaitingServerComplete }));
            }
        },
        _ => {},
    }
    let r = PluginReply { messages, block_ids };
    proof {
        assert(r@.0 =~= expected.0);
        assert(r@.1 =~= expected.1);
    }
    r
}

} // verus!
