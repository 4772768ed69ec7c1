use vstd::prelude::*;
use super::{Error, Serializable, rest};
use super::pair::pair_parse;
use super::varint::VarInt;
use super::uuid::UUID;
use super::codec::string_parse;
use super::prefixed::LenPrefixedBytes;

verus! {

#[derive(Debug, Default)]
/// A statistic and its value.
pub struct Statistic {
    pub name: String,
    pub value: VarInt,
}

impl View for Statistic {
    type V = (Seq<char>, i32);

    open spec fn view(&self) -> (Seq<char>, i32) {
        (self.name@, self.value@)
    }
}

impl Serializable for Statistic {
    open spec fn spec_parse(bytes: Seq<u8>) -> Option<((Seq<char>, i32), nat)> {
        pair_parse::<String, VarInt>(bytes)
    }

    open spec fn spec_serialize(v: (Seq<char>, i32)) -> Seq<u8> {
        <(String, VarInt) as Serializable>::spec_serialize(v)
    }

    open spec fn read_panics(bytes: Seq<u8>) -> bool {
        false
    }

    open spec fn write_panics(v: (Seq<char>, i32)) -> bool {
        false
    }

    open spec fn round_trips(v: (Seq<char>, i32)) -> bool {
        <(String, VarInt) as Serializable>::round_trips(v)
    }

    open spec fn self_delimiting() -> bool {
        true
    }

    fn read_from(buf: &[u8], pos: usize) -> (res: Result<(Statistic, usize), Error>) {
        match <(String, VarInt) as Serializable>::read_from(buf, pos) {
            Ok(((name, value), p)) => Ok((Statistic { name, value }, p)),
            Err(e) => Err(e),
        }
    }

    fn write_to(&self, out: &mut Vec<u8>) -> (res: Result<(), Error>) {
        let _ = self.name.write_to(out);
        let _ = self.value.write_to(out);
        proof {
            assert(out@ =~= old(out)@ + <(String, VarInt) as Serializable>::spec_serialize(self@));
        }
        Ok(())
    }

    proof fn lemma_round_trip(v: (Seq<char>, i32), tail: Seq<u8>) {
        <(String, VarInt) as Serializable>::lemma_round_trip(v, tail);
    }
}

#[derive(Debug, Default)]
/// One block of a multi-block change: its position in the chunk and its new block id.
pub struct BlockChangeRecord {
    pub xz: u8,
    pub y: u8,
    pub block_id: VarInt,
}

impl View for BlockChangeRecord {
    type V = (u8, (u8, i32));

    open spec fn view(&self) -> (u8, (u8, i32)) {
        (self.xz, (self.y, self.block_id@))
    }
}

impl Serializable for BlockChangeRecord {
    open spec fn spec_parse(bytes: Seq<u8>) -> Option<((u8, (u8, i32)), nat)> {
        <(u8, (u8, VarInt)) as Serializable>::spec_parse(bytes)
    }

    open spec fn spec_serialize(v: (u8, (u8, i32))) -> Seq<u8> {
        <(u8, (u8, VarInt)) as Serializable>::spec_serialize(v)
    }

    open spec fn read_panics(bytes: Seq<u8>) -> bool {
        false
    }

    open spec fn write_panics(v: (u8, (u8, i32))) -> bool {
        false
    }

    open spec fn round_trips(v: (u8, (u8, i32))) -> bool {
        true
    }

    open spec fn self_delimiting() -> bool {
        true
    }

    fn read_from(buf: &[u8], pos: usize) -> (res: Result<(BlockChangeRecord, usize), Error>) {
        match <(u8, (u8, VarInt)) as Serializable>::read_from(buf, pos) {
            Ok(((xz, (y, block_id)), p)) => Ok((BlockChangeRecord { xz, y, block_id }, p)),
            Err(e) => Err(e),
        }
    }

    fn write_to(&self, out: &mut Vec<u8>) -> (res: Result<(), Error>) {
        let _ = self.xz.write_to(out);
        let _ = self.y.write_to(out);
        let _ = self.block_id.write_to(out);
        proof {
            assert(out@ =~= old(out)@ + <(u8, (u8, VarInt)) as Serializable>::spec_serialize(self@));
        }
        Ok(())
    }

    proof fn lemma_round_trip(v: (u8, (u8, i32)), tail: Seq<u8>) {
        <(u8, (u8, VarInt)) as Serializable>::lemma_round_trip(v, tail);
    }
}

#[derive(Debug, Default)]
/// A block destroyed by an explosion, relative to its centre.
pub struct ExplosionRecord {
    pub x: i8,
    pub y: i8,
    pub z: i8,
}

impl View for ExplosionRecord {
    type V = (i8, (i8, i8));

    open spec fn view(&self) -> (i8, (i8, i8)) {
        (self.x, (self.y, self.z))
    }
}

impl Serializable for ExplosionRecord {
    open spec fn spec_parse(bytes: Seq<u8>) -> Option<((i8, (i8, i8)), nat)> {
        <(i8, (i8, i8)) as Serializable>::spec_parse(bytes)
    }

    open spec fn spec_serialize(v: (i8, (i8, i8))) -> Seq<u8> {
        <(i8, (i8, i8)) as Serializable>::spec_serialize(v)
    }

    open spec fn read_panics(bytes: Seq<u8>) -> bool {
        false
    }

    open spec fn write_panics(v: (i8, (i8, i8))) -> bool {
        false
    }

    open spec fn round_trips(v: (i8, (i8, i8))) -> bool {
        true
    }

    open spec fn self_delimiting() -> bool {
        true
    }

    fn read_from(buf: &[u8], pos: usize) -> (res: Result<(ExplosionRecord, usize), Error>) {
        match <(i8, (i8, i8)) as Serializable>::read_from(buf, pos) {
            Ok(((x, (y, z)), p)) => Ok((ExplosionRecord { x, y, z }, p)),
            Err(e) => Err(e),
        }
    }

    fn write_to(&self, out: &mut Vec<u8>) -> (res: Result<(), Error>) {
        let _ = self.x.write_to(out);
        let _ = self.y.write_to(out);
        let _ = self.z.write_to(out);
        proof {
            assert(out@ =~= old(out)@ + <(i8, (i8, i8)) as Serializable>::spec_serialize(self@));
        }
        Ok(())
    }

    proof fn lemma_round_trip(v: (i8, (i8, i8)), tail: Seq<u8>) {
        <(i8, (i8, i8)) as Serializable>::lemma_round_trip(v, tail);
    }
}

#[derive(Debug)]
/// An icon on a map: its kind and direction, and where it is.
pub struct MapIcon {
    pub direction_type: i8,
    pub x: i8,
    pub z: i8,
}

impl View for MapIcon {
    type V = (i8, (i8, i8));

    open spec fn view(&self) -> (i8, (i8, i8)) {
        (self.direction_type, (self.x, self.z))
    }
}

impl Default for MapIcon {
    fn default() -> (m: MapIcon)
        ensures
            m@ == (0i8, (0i8, 0i8)),
    {
        MapIcon { direction_type: 0, x: 0, z: 0 }
    }
}

impl Serializable for MapIcon {
    open spec fn spec_parse(bytes: Seq<u8>) -> Option<((i8, (i8, i8)), nat)> {
        <(i8, (i8, i8)) as Serializable>::spec_parse(bytes)
    }

    open spec fn spec_serialize(v: (i8, (i8, i8))) -> Seq<u8> {
        <(i8, (i8, i8)) as Serializable>::spec_serialize(v)
    }

    open spec fn read_panics(bytes: Seq<u8>) -> bool {
        false
    }

    open spec fn write_panics(v: (i8, (i8, i8))) -> bool {
        false
    }

    open spec fn round_trips(v: (i8, (i8, i8))) -> bool {
        true
    }

    open spec fn self_delimiting() -> bool {
        true
    }

    fn read_from(buf: &[u8], pos: usize) -> (res: Result<(MapIcon, usize), Error>) {
        match <(i8, (i8, i8)) as Serializable>::read_from(buf, pos) {
            Ok(((direction_type, (x, z)), p)) => Ok((MapIcon { direction_type, x, z }, p)),
            Err(e) => Err(e),
        }
    }

    fn write_to(&self, out: &mut Vec<u8>) -> (res: Result<(), Error>) {
        let _ = self.direction_type.write_to(out);
        let _ = self.x.write_to(out);
        let _ = self.z.write_to(out);
        proof {
            assert(out@ =~= old(out)@ + <(i8, (i8, i8)) as Serializable>::spec_serialize(self@));
        }
        Ok(())
    }

    proof fn lemma_round_trip(v: (i8, (i8, i8)), tail: Seq<u8>) {
        <(i8, (i8, i8)) as Serializable>::lemma_round_trip(v, tail);
    }
}

/// A property (such as a skin) attached to a player in the tab list.
#[derive(Debug)]
pub struct PlayerProperty {
    pub name: String,
    pub value: String,
    pub signature: Option<String>,
}

/// Plain-value form of a `PlayerProperty`: name, value and optional signature.
pub type PlayerPropertyView = (Seq<char>, Seq<char>, Option<Seq<char>>);

/// One entry of a player list update. A display name is kept as the JSON text
/// of its chat component.
#[derive(Debug)]
pub enum PlayerDetail {
    Add {
        uuid: UUID,
        name: String,
        properties: Vec<PlayerProperty>,
        gamemode: VarInt,
        ping: VarInt,
        display: Option<String>,
    },
    UpdateGamemode {
        uuid: UUID,
        gamemode: VarInt,
    },
    UpdateLatency {
        uuid: UUID,
        ping: VarInt,
    },
    UpdateDisplayName {
        uuid: UUID,
        display: Option<String>,
    },
    Remove {
        uuid: UUID,
    },
}

/// Plain-value form of a `PlayerDetail`.
pub enum PlayerDetailView {
    Add {
        uuid: (u64, u64),
        name: Seq<char>,
        properties: Seq<PlayerPropertyView>,
        gamemode: i32,
        ping: i32,
        display: Option<Seq<char>>,
    },
    UpdateGamemode {
        uuid: (u64, u64),
        gamemode: i32,
    },
    UpdateLatency {
        uuid: (u64, u64),
        ping: i32,
    },
    UpdateDisplayName {
        uuid: (u64, u64),
        display: Option<Seq<char>>,
    },
    Remove {
        uuid: (u64, u64),
    },
}

impl View for PlayerProperty {
    type V = PlayerPropertyView;

    open spec fn view(&self) -> PlayerPropertyView {
        (self.name@, self.value@, match self.signature {
            Some(s) => Some(s@),
            None => None,
        })
    }
}

/// The views of the options's string.
pub open spec fn opt_view(o: Option<String>) -> Option<Seq<char>> {
    match o {
        Some(s) => Some(s@),
        None => None,
    }
}

impl View for PlayerDetail {
    type V = PlayerDetailView;

    open spec fn view(&self) -> PlayerDetailView {
        match self {
            PlayerDetail::Add { uuid, name, properties, gamemode, ping, display } => PlayerDetailView::Add {
                uuid: uuid@,
                name: name@,
                properties: properties@.map_values(|p: PlayerProperty| p@),
                gamemode: gamemode@,
                ping: ping@,
                display: opt_view(*display),
            },
            PlayerDetail::UpdateGamemode { uuid, gamemode } => PlayerDetailView::UpdateGamemode {
                uuid: uuid@,
                gamemode: gamemode@,
            },
            PlayerDetail::UpdateLatency { uuid, ping } => PlayerDetailView::UpdateLatency { uuid: uuid@, ping: ping@ },
            PlayerDetail::UpdateDisplayName { uuid, display } => PlayerDetailView::UpdateDisplayName {
                uuid: uuid@,
                display: opt_view(*display),
            },
            PlayerDetail::Remove { uuid } => PlayerDetailView::Remove { uuid: uuid@ },
        }
    }
}

/// `b` from byte `n` on.
pub open spec fn after(b: Seq<u8>, n: nat) -> Seq<u8> {
    b.subrange(n as int, b.len() as int)
}

/// A flag byte and, when it is non-zero, a string.
#[verifier::opaque]
pub open spec fn opt_string_parse(b: Seq<u8>) -> Option<(Option<Seq<char>>, nat)> {
    match <bool as Serializable>::spec_parse(b) {
        Some((present, n)) => if present {
            match string_parse(after(b, n)) {
                Some((s, m)) => Some((Some(s), n + m)),
                None => None,
            }
        } else {
            Some((None, n))
        },
        None => None,
    }
}

/// A property: name, value, then an optional signature.
#[verifier::opaque]
pub open spec fn property_parse(b: Seq<u8>) -> Option<(PlayerPropertyView, nat)> {
    match string_parse(b) {
        Some((name, n1)) => if n1 <= b.len() {
            match string_parse(after(b, n1)) {
                Some((value, n2)) => if n1 + n2 <= b.len() {
                    match opt_string_parse(after(b, n1 + n2)) {
                        Some((sig, n3)) => Some(((name, value, sig), n1 + n2 + n3)),
                        None => None,
                    }
                } else {
                    None
                },
                None => None,
            }
        } else {
            None
        },
        None => None,
    }
}

/// `count` properties one after another.
pub open spec fn properties_parse(b: Seq<u8>, count: nat) -> Option<(Seq<PlayerPropertyView>, nat)>
    decreases count,
{
    if count == 0 {
        Some((Seq::empty(), 0))
    } else {
        match property_parse(b) {
            Some((p, n)) => if n <= b.len() {
                match properties_parse(after(b, n), (count - 1) as nat) {
                    Some((ps, m)) => Some((seq![p] + ps, n + m)),
                    None => None,
                }
            } else {
                None
            },
            None => None,
        }
    }
}

/// The non-negative part of a list length (a negative count reads nothing).
pub open spec fn count_of(len: i32) -> nat {
    if len < 0 { 0 } else { len as nat }
}

/// The fields that follow a player's UUID for the given action.
#[verifier::opaque]
pub open spec fn detail_body_parse(action: i32, uuid: (u64, u64), b: Seq<u8>) -> Option<(PlayerDetailView, nat)> {
    if action == 0 {
        match string_parse(b) {
            Some((name, n1)) => if n1 <= b.len() {
                match <VarInt as Serializable>::spec_parse(after(b, n1)) {
                    Some((plen, n2)) => if n1 + n2 <= b.len() {
                        match properties_parse(after(b, n1 + n2), count_of(plen)) {
                            Some((props, n3)) => if n1 + n2 + n3 <= b.len() {
                                match <(VarInt, VarInt) as Serializable>::spec_parse(after(b, n1 + n2 + n3)) {
                                    Some(((gamemode, ping), n4)) => if n1 + n2 + n3 + n4 <= b.len() {
                                        match opt_string_parse(after(b, n1 + n2 + n3 + n4)) {
                                            Some((display, n5)) => Some((PlayerDetailView::Add {
                                                uuid, name, properties: props, gamemode, ping, display,
                                            }, n1 + n2 + n3 + n4 + n5)),
                                            None => None,
                                        }
                                    } else {
                                        None
                                    },
                                    None => None,
                                }
                            } else {
                                None
                            },
                            None => None,
                        }
                    } else {
                        None
                    },
                    None => None,
                }
            } else {
                None
            },
            None => None,
        }
    } else if action == 1 {
        match <VarInt as Serializable>::spec_parse(b) {
            Some((gamemode, n)) => Some((PlayerDetailView::UpdateGamemode { uuid, gamemode }, n)),
            None => None,
        }
    } else if action == 2 {
        match <VarInt as Serializable>::spec_parse(b) {
            Some((ping, n)) => Some((PlayerDetailView::UpdateLatency { uuid, ping }, n)),
            None => None,
        }
    } else if action == 3 {
        match opt_string_parse(b) {
            Some((display, n)) => Some((PlayerDetailView::UpdateDisplayName { uuid, display }, n)),
            None => None,
        }
    } else {
        Some((PlayerDetailView::Remove { uuid }, 0))
    }
}

/// One player entry: the UUID, then the fields for the action.
#[verifier::opaque]
pub open spec fn detail_parse(action: i32, b: Seq<u8>) -> Option<(PlayerDetailView, nat)> {
    match <UUID as Serializable>::spec_parse(b) {
        Some((uuid, n)) => if n <= b.len() {
            match detail_body_parse(action, uuid, after(b, n)) {
                Some((d, m)) => Some((d, n + m)),
                None => None,
            }
        } else {
            None
        },
        None => None,
    }
}

/// `count` player entries one after another.
pub open spec fn details_parse(action: i32, b: Seq<u8>, count: nat) -> Option<(Seq<PlayerDetailView>, nat)>
    decreases count,
{
    if count == 0 {
        Some((Seq::empty(), 0))
    } else {
        match detail_parse(action, b) {
            Some((d, n)) => if n <= b.len() {
                match details_parse(action, after(b, n), (count - 1) as nat) {
                    Some((ds, m)) => Some((seq![d] + ds, n + m)),
                    None => None,
                }
            } else {
                None
            },
            None => None,
        }
    }
}

/// An update of the player list: an action and the entries it applies to.
#[derive(Debug)]
pub struct PlayerInfoData {
    pub action: VarInt,
    pub players: Vec<PlayerDetail>,
}

impl View for PlayerInfoData {
    type V = (i32, Seq<PlayerDetailView>);

    open spec fn view(&self) -> (i32, Seq<PlayerDetailView>) {
        (self.action@, self.players@.map_values(|d: PlayerDetail| d@))
    }
}

impl Default for PlayerInfoData {
    fn default() -> (d: PlayerInfoData)
        ensures
            d@.0 == 0,
            d@.1.len() == 0,
    {
        PlayerInfoData { action: VarInt(0), players: Vec::new() }
    }
}

fn read_opt_string(buf: &[u8], pos: usize) -> (res: Result<(Option<String>, usize), Error>)
    requires
        pos <= buf@.len(),
    ensures
        match res {
            Ok((v, end)) => pos <= end <= buf@.len() && opt_string_parse(rest(buf@, pos as int)) == Some((opt_view(v), (end - pos) as nat)),
            Err(_) => opt_string_parse(rest(buf@, pos as int)) is None,
        },
{
    reveal(opt_string_parse);
    let (present, p) = match <bool as Serializable>::read_from(buf, pos) {
        Ok(x) => x,
        Err(e) => return Err(e),
    };
    proof {
        let r = rest(buf@, pos as int);
        assert(after(r, (p - pos) as nat) =~= rest(buf@, p as int));
    }
    if present {
        match <String as Serializable>::read_from(buf, p) {
            Ok((s, p2)) => Ok((Some(s), p2)),
            Err(e) => Err(e),
        }
    } else {
        Ok((None, p))
    }
}

fn read_property(buf: &[u8], pos: usize) -> (res: Result<(PlayerProperty, usize), Error>)
    requires
        pos <= buf@.len(),
    ensures
        match res {
            Ok((v, end)) => pos <= end <= buf@.len() && property_parse(rest(buf@, pos as int)) == Some((v@, (end - pos) as nat)),
            Err(_) => property_parse(rest(buf@, pos as int)) is None,
        },
{
    reveal(property_parse);
    let ghost r = rest(buf@, pos as int);
    let (name, p1) = match <String as Serializable>::read_from(buf, pos) {
        Ok(x) => x,
        Err(e) => return Err(e),
    };
    proof {
        assert(after(r, (p1 - pos) as nat) =~= rest(buf@, p1 as int));
    }
    let (value, p2) = match <String as Serializable>::read_from(buf, p1) {
        Ok(x) => x,
        Err(e) => return Err(e),
    };
    proof {
        assert(after(r, (p2 - pos) as nat) =~= rest(buf@, p2 as int));
    }
    let (signature, p3) = match read_opt_string(buf, p2) {
        Ok(x) => x,
        Err(e) => return Err(e),
    };
    Ok((PlayerProperty { name, value, signature }, p3))
}

proof fn lemma_properties_snoc(b: Seq<u8>, i: nat, ps: Seq<PlayerPropertyView>, k: nat, p: PlayerPropertyView, kp: nat)
    requires
        properties_parse(b, i) == Some((ps, k)),
        k <= b.len(),
        property_parse(after(b, k)) == Some((p, kp)),
        k + kp <= b.len(),
    ensures
        properties_parse(b, i + 1) == Some((ps.push(p), k + kp)),
    decreases i,
{
    if i == 0 {
        assert(k == 0);
        assert(after(b, 0) =~= b);
        assert(property_parse(b) == Some((p, kp)));
        assert(properties_parse(after(b, kp), 0) == Some((Seq::<PlayerPropertyView>::empty(), 0nat)));
        assert(seq![p] + Seq::<PlayerPropertyView>::empty() =~= Seq::<PlayerPropertyView>::empty().push(p));
    } else {
        let (p0, k0) = property_parse(b).unwrap();
        let b2 = after(b, k0);
        let (ps2, m2) = properties_parse(b2, (i - 1) as nat).unwrap();
        assert(after(b2, (k - k0) as nat) =~= after(b, k));
        lemma_properties_snoc(b2, (i - 1) as nat, ps2, (k - k0) as nat, p, kp);
        assert(seq![p0] + ps2.push(p) =~= (seq![p0] + ps2).push(p));
    }
}

proof fn lemma_properties_fail(b: Seq<u8>, i: nat, ps: Seq<PlayerPropertyView>, k: nat, count: nat)
    requires
        properties_parse(b, i) == Some((ps, k)),
        k <= b.len(),
        property_parse(after(b, k)) is None,
        i < count,
    ensures
        properties_parse(b, count) is None,
    decreases i,
{
    if i == 0 {
        assert(after(b, 0) =~= b);
    } else {
        let (p0, k0) = property_parse(b).unwrap();
        let b2 = after(b, k0);
        let (ps2, m2) = properties_parse(b2, (i - 1) as nat).unwrap();
        assert(after(b2, (k - k0) as nat) =~= after(b, k));
        lemma_properties_fail(b2, (i - 1) as nat, ps2, (k - k0) as nat, (count - 1) as nat);
    }
}

proof fn lemma_details_snoc(action: i32, b: Seq<u8>, i: nat, ds: Seq<PlayerDetailView>, k: nat, d: PlayerDetailView, kd: nat)
    requires
        details_parse(action, b, i) == Some((ds, k)),
        k <= b.len(),
        detail_parse(action, after(b, k)) == Some((d, kd)),
        k + kd <= b.len(),
    ensures
        details_parse(action, b, i + 1) == Some((ds.push(d), k + kd)),
    decreases i,
{
    if i == 0 {
        assert(k == 0);
        assert(after(b, 0) =~= b);
        assert(detail_parse(action, b) == Some((d, kd)));
        assert(details_parse(action, after(b, kd), 0) == Some((Seq::<PlayerDetailView>::empty(), 0nat)));
        assert(seq![d] + Seq::<PlayerDetailView>::empty() =~= Seq::<PlayerDetailView>::empty().push(d));
    } else {
        let (d0, k0) = detail_parse(action, b).unwrap();
        let b2 = after(b, k0);
        let (ds2, m2) = details_parse(action, b2, (i - 1) as nat).unwrap();
        assert(after(b2, (k - k0) as nat) =~= after(b, k));
        lemma_details_snoc(action, b2, (i - 1) as nat, ds2, (k - k0) as nat, d, kd);
        assert(seq![d0] + ds2.push(d) =~= (seq![d0] + ds2).push(d));
    }
}

proof fn lemma_details_fail(action: i32, b: Seq<u8>, i: nat, ds: Seq<PlayerDetailView>, k: nat, count: nat)
    requires
        details_parse(action, b, i) == Some((ds, k)),
        k <= b.len(),
        detail_parse(action, after(b, k)) is None,
        i < count,
    ensures
        details_parse(action, b, count) is None,
    decreases i,
{
    if i == 0 {
        assert(after(b, 0) =~= b);
    } else {
        let (d0, k0) = detail_parse(action, b).unwrap();
        let b2 = after(b, k0);
        let (ds2, m2) = details_parse(action, b2, (i - 1) as nat).unwrap();
        assert(after(b2, (k - k0) as nat) =~= after(b, k));
        lemma_details_fail(action, b2, (i - 1) as nat, ds2, (k - k0) as nat, (count - 1) as nat);
    }
}

fn read_properties(buf: &[u8], pos: usize, count: i32) -> (res: Result<(Vec<PlayerProperty>, usize), Error>)
    requires
        pos <= buf@.len(),
    ensures
        match res {
            Ok((v, end)) => pos <= end <= buf@.len() && properties_parse(rest(buf@, pos as int), count_of(count))
                == Some((v@.map_values(|p: PlayerProperty| p@), (end - pos) as nat)),
            Err(_) => properties_parse(rest(buf@, pos as int), count_of(count)) is None,
        },
{
    let ghost b = rest(buf@, pos as int);
    let mut props: Vec<PlayerProperty> = Vec::new();
    let mut p = pos;
    let mut i: i32 = 0;
    while i < count
        invariant
            pos <= p <= buf@.len(),
            0 <= i,
            i <= count || count < 0,
            count < 0 ==> i == 0,
            b == rest(buf@, pos as int),
            properties_parse(b, i as nat) == Some((props@.map_values(|q: PlayerProperty| q@), (p - pos) as nat)),
        decreases count - i,
    {
        proof {
            assert(after(b, (p - pos) as nat) =~= rest(buf@, p as int));
        }
        match read_property(buf, p) {
            Ok((prop, p2)) => {
                proof {
                    lemma_properties_snoc(b, i as nat, props@.map_values(|q: PlayerProperty| q@), (p - pos) as nat, prop@, (p2 - p) as nat);
                }
                props.push(prop);
                proof {
                    assert(props@.map_values(|q: PlayerProperty| q@) =~= property_views(props@));
                }
                p = p2;
            },
            Err(e) => {
                proof {
                    lemma_properties_fail(b, i as nat, props@.map_values(|q: PlayerProperty| q@), (p - pos) as nat, count_of(count));
                }
                return Err(e);
            },
        }
        i = i + 1;
    }
    Ok((props, p))
}

/// The views of a list of properties.
pub open spec fn property_views(v: Seq<PlayerProperty>) -> Seq<PlayerPropertyView> {
    v.map_values(|q: PlayerProperty| q@)
}

fn read_detail_body(action: i32, uuid: UUID, buf: &[u8], pos: usize) -> (res: Result<(PlayerDetail, usize), Error>)
    requires
        pos <= buf@.len(),
        0 <= action <= 4,
    ensures
        match res {
            Ok((v, end)) => pos <= end <= buf@.len() && detail_body_parse(action, uuid@, rest(buf@, pos as int))
                == Some((v@, (end - pos) as nat)),
            Err(_) => detail_body_parse(action, uuid@, rest(buf@, pos as int)) is None,
        },
{
    reveal(detail_body_parse);
    let ghost r = rest(buf@, pos as int);
    if action == 0 {
        let (name, p1) = match <String as Serializable>::read_from(buf, pos) {
            Ok(x) => x,
            Err(e) => return Err(e),
        };
        proof {
            assert(after(r, (p1 - pos) as nat) =~= rest(buf@, p1 as int));
        }
        let (plen, p2) = match <VarInt as Serializable>::read_from(buf, p1) {
            Ok(x) => x,
            Err(e) => return Err(e),
        };
        proof {
            assert(after(r, (p2 - pos) as nat) =~= rest(buf@, p2 as int));
        }
        let (properties, p3) = match read_properties(buf, p2, plen.0) {
            Ok(x) => x,
            Err(e) => return Err(e),
        };
        proof {
            assert(after(r, (p3 - pos) as nat) =~= rest(buf@, p3 as int));
        }
        let ((gamemode, ping), p4) = match <(VarInt, VarInt) as Serializable>::read_from(buf, p3) {
            Ok(x) => x,
            Err(e) => return Err(e),
        };
        proof {
            assert(after(r, (p4 - pos) as nat) =~= rest(buf@, p4 as int));
        }
        let (display, p5) = match read_opt_string(buf, p4) {
            Ok(x) => x,
            Err(e) => return Err(e),
        };
        Ok((PlayerDetail::Add { uuid, name, properties, gamemode, ping, display }, p5))
    } else if action == 1 {
        match <VarInt as Serializable>::read_from(buf, pos) {
            Ok((gamemode, p)) => Ok((PlayerDetail::UpdateGamemode { uuid, gamemode }, p)),
            Err(e) => Err(e),
        }
    } else if action == 2 {
        match <VarInt as Serializable>::read_from(buf, pos) {
            Ok((ping, p)) => Ok((PlayerDetail::UpdateLatency { uuid, ping }, p)),
            Err(e) => Err(e),
        }
    } else if action == 3 {
        match read_opt_string(buf, pos) {
            Ok((display, p)) => Ok((PlayerDetail::UpdateDisplayName { uuid, display }, p)),
            Err(e) => Err(e),
        }
    } else {
        Ok((PlayerDetail::Remove { uuid }, pos))
    }
}

/// Reading a player list update: the action, the number of entries, then the entries.
pub open spec fn player_info_parse(b: Seq<u8>) -> Option<((i32, Seq<PlayerDetailView>), nat)> {
    match <(VarInt, VarInt) as Serializable>::spec_parse(b) {
        Some(((action, len), n)) => if n <= b.len() {
            match details_parse(action, after(b, n), count_of(len)) {
                Some((ds, m)) => Some(((action, ds), n + m)),
                None => None,
            }
        } else {
            None
        },
        None => None,
    }
}

impl Serializable for PlayerInfoData {
    open spec fn spec_parse(bytes: Seq<u8>) -> Option<((i32, Seq<PlayerDetailView>), nat)> {
        player_info_parse(bytes)
    }

    /// There is no writer for this record.
    open spec fn spec_serialize(v: (i32, Seq<PlayerDetailView>)) -> Seq<u8> {
        Seq::empty()
    }

    /// An action other than 0..=4 aborts once the first entry's UUID has been read.
    open spec fn read_panics(bytes: Seq<u8>) -> bool {
        match <(VarInt, VarInt) as Serializable>::spec_parse(bytes) {
            Some(((action, len), n)) => n <= bytes.len() && len > 0 && !(0 <= action <= 4)
                && <UUID as Serializable>::spec_parse(after(bytes, n)) is Some,
            None => false,
        }
    }

    /// Writing is not implemented and always aborts.
    open spec fn write_panics(v: (i32, Seq<PlayerDetailView>)) -> bool {
        true
    }

    open spec fn round_trips(v: (i32, Seq<PlayerDetailView>)) -> bool {
        false
    }

    open spec fn self_delimiting() -> bool {
        true
    }

    fn read_from(buf: &[u8], pos: usize) -> (res: Result<(PlayerInfoData, usize), Error>) {
        reveal(detail_parse);
        let ghost r = rest(buf@, pos as int);
        let ((action, len), p0) = match <(VarInt, VarInt) as Serializable>::read_from(buf, pos) {
            Ok(x) => x,
            Err(e) => return Err(e),
        };
        let ghost b = rest(buf@, p0 as int);
        proof {
            assert(after(r, (p0 - pos) as nat) =~= b);
        }
        let mut players: Vec<PlayerDetail> = Vec::new();
        let mut p = p0;
        let mut i: i32 = 0;
        while i < len.0
            invariant
                pos <= p0 <= p <= buf@.len(),
                0 <= i,
                i <= len.0 || len.0 < 0,
                len.0 < 0 ==> i == 0,
                b == rest(buf@, p0 as int),
                r == rest(buf@, pos as int),
                <(VarInt, VarInt) as Serializable>::spec_parse(r) == Some(((action@, len@), (p0 - pos) as nat)),
                after(r, (p0 - pos) as nat) == b,
                !Self::read_panics(r),
                details_parse(action.0, b, i as nat) == Some((players@.map_values(|d: PlayerDetail| d@), (p - p0) as nat)),
            decreases len.0 - i,
        {
            proof {
                reveal(detail_parse);
                assert(after(b, (p - p0) as nat) =~= rest(buf@, p as int));
            }
            let (uuid, pu) = match <UUID as Serializable>::read_from(buf, p) {
                Ok(x) => x,
                Err(e) => {
                    proof {
                        reveal(detail_parse);
                        lemma_details_fail(action.0, b, i as nat, players@.map_values(|d: PlayerDetail| d@), (p - p0) as nat, count_of(len.0));
                    }
                    return Err(e);
                },
            };
            proof {
                if !(0 <= action.0 <= 4) {
                    // the first entry's UUID was read: reading would have aborted here
                    assert(i == 0);
                    assert(after(r, (p0 - pos) as nat) =~= rest(buf@, p as int));
                    assert(false);
                }
                assert(after(rest(buf@, p as int), (pu - p) as nat) =~= rest(buf@, pu as int));
            }
            match read_detail_body(action.0, uuid, buf, pu) {
                Ok((d, p2)) => {
                    proof {
                        reveal(detail_parse);
                        lemma_details_snoc(action.0, b, i as nat, players@.map_values(|x: PlayerDetail| x@), (p - p0) as nat, d@, (p2 - p) as nat);
                    }
                    players.push(d);
                    proof {
                        assert(players@.map_values(|x: PlayerDetail| x@) =~= views_of_details(players@));
                    }
                    p = p2;
                },
                Err(e) => {
                    proof {
                        reveal(detail_parse);
                        lemma_details_fail(action.0, b, i as nat, players@.map_values(|x: PlayerDetail| x@), (p - p0) as nat, count_of(len.0));
                    }
                    return Err(e);
                },
            }
            i = i + 1;
        }
        Ok((PlayerInfoData { action, players }, p))
    }

    fn write_to(&self, out: &mut Vec<u8>) -> (res: Result<(), Error>) {
        Ok(())
    }

    proof fn lemma_round_trip(v: (i32, Seq<PlayerDetailView>), tail: Seq<u8>) {
    }
}

/// The views of a list of player entries.
pub open spec fn views_of_details(v: Seq<PlayerDetail>) -> Seq<PlayerDetailView> {
    v.map_values(|x: PlayerDetail| x@)
}

/// PluginMessageServerbound is used for custom messages between the client
/// and server. This is mainly for plugins/mods but vanilla has a few channels
/// registered too.
#[derive(Debug, Default)]
pub struct PluginMessageServerbound {
    pub channel: String,
    pub data: Vec<u8>,
}

impl View for PluginMessageServerbound {
    type V = (Seq<char>, Seq<u8>);

    open spec fn view(&self) -> (Seq<char>, Seq<u8>) {
        (self.channel@, self.data@)
    }
}

/// The plugin message of protocol versions whose data carries a 16-bit length.
#[derive(Debug)]
pub struct PluginMessageServerbound_i16 {
    pub channel: String,
    pub data: LenPrefixedBytes<i16>,
}

impl View for PluginMessageServerbound_i16 {
    type V = (Seq<char>, Seq<u8>);

    open spec fn view(&self) -> (Seq<char>, Seq<u8>) {
        (self.channel@, self.data@)
    }
}

/// The handshake is the first packet sent in the protocol: the protocol
/// version of the client, the host and port it connected to, and the state
/// it asks for next.
#[derive(Debug, Default)]
pub struct Handshake {
    pub protocol_version: VarInt,
    pub host: String,
    pub port: u16,
    pub next: VarInt,
}

impl View for Handshake {
    type V = (i32, (Seq<char>, (u16, i32)));

    open spec fn view(&self) -> (i32, (Seq<char>, (u16, i32))) {
        (self.protocol_version@, (self.host@, (self.port, self.next@)))
    }
}

impl Serializable for Handshake {
    open spec fn spec_parse(bytes: Seq<u8>) -> Option<((i32, (Seq<char>, (u16, i32))), nat)> {
        <(VarInt, (String, (u16, VarInt))) as Serializable>::spec_parse(bytes)
    }

    open spec fn spec_serialize(v: (i32, (Seq<char>, (u16, i32)))) -> Seq<u8> {
        <(VarInt, (String, (u16, VarInt))) as Serializable>::spec_serialize(v)
    }

    open spec fn read_panics(bytes: Seq<u8>) -> bool {
        false
    }

    open spec fn write_panics(v: (i32, (Seq<char>, (u16, i32)))) -> bool {
        false
    }

    open spec fn round_trips(v: (i32, (Seq<char>, (u16, i32)))) -> bool {
        <(VarInt, (String, (u16, VarInt))) as Serializable>::round_trips(v)
    }

    open spec fn self_delimiting() -> bool {
        true
    }

    fn read_from(buf: &[u8], pos: usize) -> (res: Result<(Handshake, usize), Error>) {
        match <(VarInt, (String, (u16, VarInt))) as Serializable>::read_from(buf, pos) {
            Ok(((protocol_version, (host, (port, next))), p)) => Ok((Handshake { protocol_version, host, port, next }, p)),
            Err(e) => Err(e),
        }
    }

    fn write_to(&self, out: &mut Vec<u8>) -> (res: Result<(), Error>) {
        let _ = self.protocol_version.write_to(out);
        let _ = self.host.write_to(out);
        let _ = self.port.write_to(out);
        let _ = self.next.write_to(out);
        proof {
            assert(out@ =~= old(out)@ + <(VarInt, (String, (u16, VarInt))) as Serializable>::spec_serialize(self@));
        }
        Ok(())
    }

    proof fn lemma_round_trip(v: (i32, (Seq<char>, (u16, i32))), tail: Seq<u8>) {
        <(VarInt, (String, (u16, VarInt))) as Serializable>::lemma_round_trip(v, tail);
    }
}

} // verus!
