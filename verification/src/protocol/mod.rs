use vstd::prelude::*;
use vstd::string::*;
use crate::format::{Component, TextComponent, component_view, component_from_json, json_colors_ok, json_colors_readable};
use crate::json::{JsonValue, JsonView, json_view, json_get, json_str, json_i64, json_parse, parse_json};
use crate::protocol::codec::string_parse;

pub mod address;
pub mod codec;
pub mod frame;
pub mod mojang;
pub mod packet;
pub mod status;
pub mod login;
pub mod pair;
pub mod position;
pub mod prefixed;
pub mod uuid;
pub mod varint;

verus! {

/// The protocol version this client speaks by default.
pub const SUPPORTED_PROTOCOL: i32 = 109;

/// The kind of a failed read or write on a byte stream.
#[derive(Debug, Clone, Copy, PartialEq, Eq, Structural)]
pub enum IoErrorKind {
    /// The stream ended before the value was complete.
    UnexpectedEof,
    /// The bytes read do not form a valid value (such as text that is not UTF-8).
    InvalidData,
}

/// Returned for any protocol related error.
#[derive(Debug)]
pub enum Error {
    /// A protocol error described by a message.
    Message(String),
    Disconnect(Component),
    IOError(IoErrorKind),
}

/// Direction is used to define whether packets are going to the
/// server or the client.
#[derive(Clone, Copy, Debug, PartialEq, Eq, Structural)]
pub enum Direction {
    Serverbound,
    Clientbound,
}

/// The protocol has multiple 'sub-protocols' or states which control which
/// packet an id points to.
#[derive(Clone, Copy, Debug, PartialEq, Eq, Structural)]
pub enum State {
    Handshaking,
    Play,
    Status,
    Login,
}

/// The rest of `buf` from `pos` on.
pub open spec fn rest(buf: Seq<u8>, pos: int) -> Seq<u8> {
    buf.subrange(pos, buf.len() as int)
}

/// A value with a wire encoding.
///
/// `spec_parse(bytes)` is what reading from the front of `bytes` yields: the
/// (view of the) value and the number of bytes consumed, or `None` where the
/// read fails. `spec_serialize(v)` is the encoding that writing `v` appends.
pub trait Serializable: Sized + View {
    spec fn spec_parse(bytes: Seq<u8>) -> Option<(Self::V, nat)>;

    spec fn spec_serialize(v: Self::V) -> Seq<u8>;

    /// Inputs on which reading aborts instead of returning.
    spec fn read_panics(bytes: Seq<u8>) -> bool;

    /// Values whose writing aborts instead of returning.
    spec fn write_panics(v: Self::V) -> bool;

    /// Values that reading their own encoding gives back.
    spec fn round_trips(v: Self::V) -> bool;

    /// Whether a read stops at the end of the value's encoding, whatever follows.
    spec fn self_delimiting() -> bool;

    /// Reads a value from `buf` starting at `pos`, returning it and the
    /// position just past it.
    fn read_from(buf: &[u8], pos: usize) -> (res: Result<(Self, usize), Error>)
        requires
            pos <= buf@.len(),
            !Self::read_panics(rest(buf@, pos as int)),
        ensures
            match res {
                Ok((v, end)) => pos <= end <= buf@.len() && Self::spec_parse(rest(buf@, pos as int))
                    == Some((v@, (end - pos) as nat)),
                Err(_) => Self::spec_parse(rest(buf@, pos as int)) is None,
            },
    ;

    /// Appends the encoding of `self` to `out`.
    fn write_to(&self, out: &mut Vec<u8>) -> (res: Result<(), Error>)
        requires
            !Self::write_panics(self@),
        ensures
            res is Ok,
            final(out)@ == old(out)@ + Self::spec_serialize(self@),
    ;

    /// Reading the encoding of a value gives the value back and consumes
    /// exactly its encoding (followed by anything, for self-delimiting values).
    proof fn lemma_round_trip(v: Self::V, tail: Seq<u8>)
        requires
            Self::round_trips(v),
            Self::self_delimiting() || tail.len() == 0,
        ensures
            Self::spec_parse(Self::spec_serialize(v) + tail) == Some((v, Self::spec_serialize(v).len())),
    ;
}

/// A value that can prefix a list with its length.
pub trait Lengthable: Serializable + Copy {
    spec fn spec_into(v: Self::V) -> usize;

    spec fn spec_from(u: usize) -> Self::V;

    fn into(self) -> (r: usize)
        ensures
            r == Self::spec_into(self@),
    ;

    fn from(u: usize) -> (r: Self)
        ensures
            r@ == Self::spec_from(u),
    ;
}


/// A server's answer to a status request.
#[derive(Debug)]
pub struct Status {
    pub version: StatusVersion,
    pub players: StatusPlayers,
    pub description: Component,
    pub favicon: Option<String>,
}

/// The game version a server runs.
#[derive(Debug)]
pub struct StatusVersion {
    pub name: String,
    pub protocol: i32,
}

/// How many players a server holds, and some of them.
#[derive(Debug)]
pub struct StatusPlayers {
    pub max: i32,
    pub online: i32,
    pub sample: Vec<StatusPlayer>,
}

/// A player listed in a status answer.
#[derive(Debug)]
pub struct StatusPlayer {
    name: String,
    id: String,
}


/// A string member of a JSON object.
pub open spec fn str_member(v: JsonView, key: Seq<char>) -> Option<Seq<char>> {
    match json_get(v, key) {
        Some(x) => json_str(x),
        None => None,
    }
}

/// An integer member of a JSON object.
pub open spec fn int_member(v: JsonView, key: Seq<char>) -> Option<i64> {
    match json_get(v, key) {
        Some(x) => json_i64(x),
        None => None,
    }
}

/// A member of a member of a JSON object.
pub open spec fn sub_member(v: JsonView, outer: Seq<char>) -> JsonView {
    match json_get(v, outer) {
        Some(x) => x,
        None => JsonView::Null,
    }
}

/// Whether a status answer has everything a `Status` needs: a version with
/// a name and a protocol number, players with a maximum and an online count,
/// and a description.
pub open spec fn status_complete(v: JsonView) -> bool {
    &&& json_get(v, "version"@) is Some
    &&& json_get(v, "players"@) is Some
    &&& str_member(sub_member(v, "version"@), "name"@) is Some
    &&& int_member(sub_member(v, "version"@), "protocol"@) is Some
    &&& int_member(sub_member(v, "players"@), "max"@) is Some
    &&& int_member(sub_member(v, "players"@), "online"@) is Some
    &&& json_get(v, "description"@) is Some
}

/// What a `Status` read from the status answer `v` holds.
pub open spec fn status_fields(st: Status, v: JsonView) -> bool {
    &&& st.version.name@ == str_member(sub_member(v, "version"@), "name"@)->0
    &&& st.version.protocol == int_member(sub_member(v, "version"@), "protocol"@)->0 as i32
    &&& st.players.max == int_member(sub_member(v, "players"@), "max"@)->0 as i32
    &&& st.players.online == int_member(sub_member(v, "players"@), "online"@)->0 as i32
    &&& st.players.sample@.len() == 0
    &&& component_view(st.description) == component_from_json(json_get(v, "description"@)->0)
    &&& st.favicon matches Some(f) ==> str_member(v, "favicon"@) == Some(f@)
    &&& st.favicon is None ==> str_member(v, "favicon"@) is None
}

/// Whether the status answer `text` can be read: where it is JSON, every
/// colour of its description can be read.
pub open spec fn status_text_ok(text: Seq<char>) -> bool {
    json_parse(text) matches Some(v) ==> (json_get(v, "description"@) matches Some(d) ==> json_colors_ok(d))
}

/// Whether chat text is JSON whose colours can all be read.
pub open spec fn component_text_ok(text: Seq<char>) -> bool {
    json_parse(text) matches Some(v) && json_colors_ok(v)
}

fn json_parse_error() -> (e: Error)
    ensures
        e matches Error::Message(m) && m@ == "Json parse error"@,
{
    Error::Message("Json parse error".to_owned())
}

fn invalid_status() -> (e: Error)
    ensures
        e matches Error::Message(m) && m@ == "Invalid status"@,
{
    Error::Message("Invalid status".to_owned())
}

impl Status {
    /// Reads a server's answer to a status request. The numbers are cut to
    /// 32 bits; the sample of players is left empty.
    pub fn from_json(val: &JsonValue) -> (r: Result<Status, Error>)
        requires
            json_get(json_view(*val), "description"@) matches Some(d) ==> json_colors_ok(d),
        ensures
            r is Ok <==> status_complete(json_view(*val)),
            r matches Ok(st) ==> status_fields(st, json_view(*val)),
            r matches Err(e) ==> e matches Error::Message(m) && m@ == "Invalid status"@,
    {
        let version = match val.get("version") {
            Some(x) => x,
            None => return Err(invalid_status()),
        };
        let players = match val.get("players") {
            Some(x) => x,
            None => return Err(invalid_status()),
        };
        let name = match version.get("name") {
            Some(x) => match x.as_str() {
                Some(s) => s.to_owned(),
                None => return Err(invalid_status()),
            },
            None => return Err(invalid_status()),
        };
        let protocol = match version.get("protocol") {
            Some(x) => match x.as_i64() {
                Some(p) => p as i32,
                None => return Err(invalid_status()),
            },
            None => return Err(invalid_status()),
        };
        let max = match players.get("max") {
            Some(x) => match x.as_i64() {
                Some(p) => p as i32,
                None => return Err(invalid_status()),
            },
            None => return Err(invalid_status()),
        };
        let online = match players.get("online") {
            Some(x) => match x.as_i64() {
                Some(p) => p as i32,
                None => return Err(invalid_status()),
            },
            None => return Err(invalid_status()),
        };
        let description = match val.get("description") {
            Some(d) => Component::from_value(d),
            None => return Err(invalid_status()),
        };
        let favicon = match val.get("favicon") {
            Some(x) => match x.as_str() {
                Some(s) => Some(s.to_owned()),
                None => None,
            },
            None => None,
        };
        Ok(Status {
            version: StatusVersion { name, protocol },
            players: StatusPlayers { max, online, sample: Vec::new() },
            description,
            favicon,
        })
    }
}

impl Status {
    /// Reads a server's status answer, the JSON text of a status response.
    pub fn parse(text: &str) -> (r: Result<Status, Error>)
        requires
            status_text_ok(text@),
        ensures
            json_parse(text@) is None ==> (r matches Err(e) && e matches Error::Message(m) && m@ == "Json parse error"@),
            json_parse(text@) matches Some(v) ==> {
                &&& r is Ok <==> status_complete(v)
                &&& r matches Ok(st) ==> status_fields(st, v)
                &&& r matches Err(e) ==> e matches Error::Message(m) && m@ == "Invalid status"@
            },
    {
        match parse_json(text) {
            Some(v) => Status::from_json(&v),
            None => Err(json_parse_error()),
        }
    }

    /// Reads a status answer as `parse` does, or gives `None` where its
    /// description names a colour that cannot be read.
    pub fn parse_checked(text: &str) -> (r: Option<Result<Status, Error>>)
        ensures
            r is None <==> !status_text_ok(text@),
            r matches Some(res) ==> {
                &&& json_parse(text@) is None ==> (res matches Err(e) && e matches Error::Message(m) && m@ == "Json parse error"@)
                &&& json_parse(text@) matches Some(v) ==> {
                    &&& res is Ok <==> status_complete(v)
                    &&& res matches Ok(st) ==> status_fields(st, v)
                    &&& res matches Err(e) ==> e matches Error::Message(m) && m@ == "Invalid status"@
                }
            },
    {
        match parse_json(text) {
            Some(v) => match v.get("description") {
                Some(d) => {
                    if !json_colors_readable(d) {
                        return None;
                    }
                },
                None => {},
            },
            None => {},
        }
        Some(Status::parse(text))
    }
}

impl Component {
    /// The component that chat text in JSON denotes.
    pub fn from_json_text(text: &str) -> (c: Component)
        requires
            component_text_ok(text@),
        ensures
            component_view(c) == component_from_json(json_parse(text@)->0),
    {
        match parse_json(text) {
            Some(v) => Component::from_value(&v),
            None => {
                proof {
                    assert(false);
                }
                Component::Text(TextComponent::new(""))
            },
        }
    }

    /// Chat text as `from_json_text` reads it, or `None` where the text is
    /// not JSON or names a colour that cannot be read.
    pub fn parse_checked(text: &str) -> (r: Option<Component>)
        ensures
            r is None <==> !component_text_ok(text@),
            r matches Some(c) ==> component_view(c) == component_from_json(json_parse(text@)->0),
    {
        match parse_json(text) {
            Some(v) => {
                if json_colors_readable(&v) {
                    Some(Component::from_json_text(text))
                } else {
                    None
                }
            },
            None => None,
        }
    }

    /// Reads chat text from `buf` at `pos`: a length-prefixed string that
    /// holds the component as JSON. Returns the component and the position
    /// just past it; a string that does not read fails as `String` reading does.
    pub fn read_from(buf: &[u8], pos: usize) -> (r: Result<(Component, usize), Error>)
        requires
            pos <= buf@.len(),
            string_parse(rest(buf@, pos as int)) matches Some((s, n)) ==> component_text_ok(s),
        ensures
            match string_parse(rest(buf@, pos as int)) {
                None => r is Err,
                Some((s, n)) => r matches Ok((c, end)) && end == pos + n
                    && component_view(c) == component_from_json(json_parse(s)->0),
            },
    {
        match <String as Serializable>::read_from(buf, pos) {
            Ok((s, end)) => Ok((Component::from_json_text(s.as_str()), end)),
            Err(e) => Err(e),
        }
    }

    /// Reads chat text as `read_from` does, or gives `None` where the string
    /// read is not JSON or names a colour that cannot be read.
    pub fn read_checked(buf: &[u8], pos: usize) -> (r: Option<Result<(Component, usize), Error>>)
        requires
            pos <= buf@.len(),
        ensures
            match string_parse(rest(buf@, pos as int)) {
                None => r matches Some(res) && res is Err,
                Some((s, n)) => if component_text_ok(s) {
                    r matches Some(Ok((c, end))) && end == pos + n
                        && component_view(c) == component_from_json(json_parse(s)->0)
                } else {
                    r is None
                },
            },
    {
        match <String as Serializable>::read_from(buf, pos) {
            Ok((s, _)) => {
                match parse_json(s.as_str()) {
                    Some(v) => {
                        if !json_colors_readable(&v) {
                            return None;
                        }
                    },
                    None => return None,
                }
                Some(Component::read_from(buf, pos))
            },
            Err(e) => Some(Err(e)),
        }
    }
}

} // verus!
