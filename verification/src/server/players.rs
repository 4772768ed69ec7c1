use vstd::prelude::*;
use super::Gamemode;
use crate::json::{JsonValue, JsonView, json_view, json_get, json_str};
use crate::protocol::packet::{PlayerDetail, PlayerDetailView, PlayerProperty, opt_view};
use crate::protocol::uuid::UUID;
use crate::text::str_eq;

verus! {

/// The game mode a protocol number stands for; unknown numbers are survival.
pub open spec fn gamemode_of(val: i32) -> Gamemode {
    if val == 3 {
        Gamemode::Spectator
    } else if val == 2 {
        Gamemode::Adventure
    } else if val == 1 {
        Gamemode::Creative
    } else {
        Gamemode::Survival
    }
}

/// What the client knows of a player in the player list.
#[derive(Debug)]
pub struct PlayerInfo {
    name: String,
    uuid: UUID,
    skin_url: Option<String>,
    /// The display name as the JSON text of its chat component.
    display_name: Option<String>,
    ping: i32,
    gamemode: Gamemode,
}

/// A player's entry, as a mathematical value: name, skin address, display
/// name, ping and game mode.
pub struct PlayerView {
    pub name: Seq<char>,
    pub skin_url: Option<Seq<char>>,
    pub display_name: Option<Seq<char>>,
    pub ping: i32,
    pub gamemode: Gamemode,
}

impl PlayerInfo {
    pub closed spec fn view(&self) -> PlayerView {
        PlayerView {
            name: self.name@,
            skin_url: opt_view(self.skin_url),
            display_name: opt_view(self.display_name),
            ping: self.ping,
            gamemode: self.gamemode,
        }
    }

    /// The player's name.
    pub fn name(&self) -> (s: &str)
        ensures
            s@ == self.view().name,
    {
        self.name.as_str()
    }

    /// Where the player's skin is, if the server said.
    pub fn skin_url(&self) -> (s: Option<&str>)
        ensures
            match s {
                Some(u) => self.view().skin_url == Some(u@),
                None => self.view().skin_url is None,
            },
    {
        match &self.skin_url {
            Some(u) => Some(u.as_str()),
            None => None,
        }
    }

    /// The player's display name (JSON chat text), if any.
    pub fn display_name(&self) -> (s: Option<&str>)
        ensures
            match s {
                Some(d) => self.view().display_name == Some(d@),
                None => self.view().display_name is None,
            },
    {
        match &self.display_name {
            Some(d) => Some(d.as_str()),
            None => None,
        }
    }

    /// The player's latency in milliseconds, as the server reports it.
    pub fn ping(&self) -> (p: i32)
        ensures
            p == self.view().ping,
    {
        self.ping
    }

    /// The player's game mode.
    pub fn gamemode(&self) -> (g: Gamemode)
        ensures
            g == self.view().gamemode,
    {
        self.gamemode
    }
}

/// The list of players on a server, by uuid.
pub struct PlayerList {
    players: Vec<PlayerInfo>,
}

/// The player list after one update; `skin` is the skin address that an
/// added player's textures give, if they give one.
pub open spec fn updated(players: Map<(u64, u64), PlayerView>, d: PlayerDetailView, skin: Option<Seq<char>>)
    -> Map<(u64, u64), PlayerView>
{
    match d {
        PlayerDetailView::Add { uuid, name, gamemode, ping, display, .. } => players.insert(uuid, PlayerView {
            name,
            skin_url: if skin is Some {
                skin
            } else if players.contains_key(uuid) {
                players[uuid].skin_url
            } else {
                None
            },
            display_name: display,
            ping,
            gamemode: gamemode_of(gamemode),
        }),
        PlayerDetailView::UpdateGamemode { uuid, gamemode } => if players.contains_key(uuid) {
            players.insert(uuid, PlayerView { gamemode: gamemode_of(gamemode), ..players[uuid] })
        } else {
            players
        },
        PlayerDetailView::UpdateLatency { uuid, ping } => if players.contains_key(uuid) {
            players.insert(uuid, PlayerView { ping, ..players[uuid] })
        } else {
            players
        },
        PlayerDetailView::UpdateDisplayName { uuid, display } => if players.contains_key(uuid) {
            players.insert(uuid, PlayerView { display_name: display, ..players[uuid] })
        } else {
            players
        },
        PlayerDetailView::Remove { uuid } => players.remove(uuid),
    }
}

/// What each kind of player-list update does: it touches only the player it
/// names. An addition lists the player with the given name, display name,
/// ping and game mode (keeping a known skin where none comes with it);
/// a game-mode, latency or display-name update of a listed player replaces
/// exactly that field (a display name of `None` clears it) and is ignored for
/// a player not listed; a removal unlists the player.
pub proof fn lemma_update_effects(players: Map<(u64, u64), PlayerView>, d: PlayerDetailView, skin: Option<Seq<char>>)
    ensures
        ({
            let r = updated(players, d, skin);
            let u = match d {
                PlayerDetailView::Add { uuid, .. } => uuid,
                PlayerDetailView::UpdateGamemode { uuid, .. } => uuid,
                PlayerDetailView::UpdateLatency { uuid, .. } => uuid,
                PlayerDetailView::UpdateDisplayName { uuid, .. } => uuid,
                PlayerDetailView::Remove { uuid } => uuid,
            };
            &&& forall|k: (u64, u64)| k != u ==> (#[trigger] r.contains_key(k) == players.contains_key(k))
            &&& forall|k: (u64, u64)| k != u && players.contains_key(k) ==> #[trigger] r[k] == players[k]
            &&& match d {
                PlayerDetailView::Add { uuid, name, gamemode, ping, display, .. } => {
                    &&& r.contains_key(uuid)
                    &&& r[uuid].name == name
                    &&& r[uuid].display_name == display
                    &&& r[uuid].ping == ping
                    &&& r[uuid].gamemode == gamemode_of(gamemode)
                    &&& skin is Some ==> r[uuid].skin_url == skin
                    &&& skin is None && players.contains_key(uuid) ==> r[uuid].skin_url == players[uuid].skin_url
                    &&& skin is None && !players.contains_key(uuid) ==> r[uuid].skin_url is None
                },
                PlayerDetailView::UpdateGamemode { uuid, gamemode } => {
                    &&& r.contains_key(uuid) == players.contains_key(uuid)
                    &&& players.contains_key(uuid) ==> r[uuid] == PlayerView { gamemode: gamemode_of(gamemode), ..players[uuid] }
                },
                PlayerDetailView::UpdateLatency { uuid, ping } => {
                    &&& r.contains_key(uuid) == players.contains_key(uuid)
                    &&& players.contains_key(uuid) ==> r[uuid] == PlayerView { ping: ping, ..players[uuid] }
                },
                PlayerDetailView::UpdateDisplayName { uuid, display } => {
                    &&& r.contains_key(uuid) == players.contains_key(uuid)
                    &&& players.contains_key(uuid) ==> r[uuid].display_name == display
                    &&& players.contains_key(uuid) ==> r[uuid] == PlayerView { display_name: display, ..players[uuid] }
                },
                PlayerDetailView::Remove { uuid } => !r.contains_key(uuid),
            }
        }),
        gamemode_of(0) == Gamemode::Survival,
        gamemode_of(1) == Gamemode::Creative,
        gamemode_of(2) == Gamemode::Adventure,
        gamemode_of(3) == Gamemode::Spectator,
        forall|v: i32| !(0 <= v <= 3) ==> #[trigger] gamemode_of(v) == Gamemode::Survival,
{
}

impl PlayerList {
    /// No player is listed twice.
    pub closed spec fn wf(&self) -> bool {
        forall|i: int, j: int| 0 <= i < j < self.players@.len() ==> self.players@[i].uuid@ != self.players@[j].uuid@
    }

    /// The listed players by uuid.
    pub closed spec fn view(&self) -> Map<(u64, u64), PlayerView> {
        Map::new(
            |u: (u64, u64)| exists|i: int| 0 <= i < self.players@.len() && self.players@[i].uuid@ == u,
            |u: (u64, u64)| self.players@[choose|i: int| 0 <= i < self.players@.len() && self.players@[i].uuid@ == u].view(),
        )
    }

    /// An empty list.
    pub fn new() -> (l: PlayerList)
        ensures
            l.wf(),
            l.view() == Map::<(u64, u64), PlayerView>::empty(),
    {
        let l = PlayerList { players: Vec::new() };
        proof {
            assert(l.view() =~= Map::<(u64, u64), PlayerView>::empty());
        }
        l
    }

    /// The entry of player `uuid` at position `i` is what the view gives.
    proof fn lemma_lookup(&self, i: int)
        requires
            self.wf(),
            0 <= i < self.players@.len(),
        ensures
            self.view().contains_key(self.players@[i].uuid@),
            self.view()[self.players@[i].uuid@] == self.players@[i].view(),
    {
        let u = self.players@[i].uuid@;
        let j = choose|j: int| 0 <= j < self.players@.len() && self.players@[j].uuid@ == u;
        assert(j == i);
    }

    /// Where player `uuid` is listed.
    fn position(&self, uuid: &UUID) -> (r: Option<usize>)
        requires
            self.wf(),
        ensures
            match r {
                Some(i) => i < self.players@.len() && self.players@[i as int].uuid@ == uuid@,
                None => !self.view().contains_key(uuid@),
            },
    {
        let mut i: usize = 0;
        while i < self.players.len()
            invariant
                i <= self.players@.len(),
                forall|j: int| 0 <= j < i ==> self.players@[j].uuid@ != uuid@,
            decreases self.players@.len() - i,
        {
            if self.players[i].uuid.same(uuid) {
                return Some(i);
            }
            i = i + 1;
        }
        None
    }

    /// The entry of player `uuid`, if listed.
    pub fn get(&self, uuid: &UUID) -> (r: Option<&PlayerInfo>)
        requires
            self.wf(),
        ensures
            match r {
                Some(p) => self.view().contains_key(uuid@) && self.view()[uuid@] == p.view(),
                None => !self.view().contains_key(uuid@),
            },
    {
        match self.position(uuid) {
            Some(i) => {
                proof {
                    self.lemma_lookup(i as int);
                }
                Some(&self.players[i])
            },
            None => None,
        }
    }

    proof fn lemma_replace(old_list: &PlayerList, new_list: &PlayerList, i: int)
        requires
            old_list.wf(),
            0 <= i < old_list.players@.len(),
            new_list.players@.len() == old_list.players@.len(),
            new_list.players@[i].uuid@ == old_list.players@[i].uuid@,
            forall|j: int| 0 <= j < old_list.players@.len() && j != i ==> new_list.players@[j] == old_list.players@[j],
        ensures
            new_list.wf(),
            new_list.view() == old_list.view().insert(old_list.players@[i].uuid@, new_list.players@[i].view()),
    {
        let u = old_list.players@[i].uuid@;
        assert forall|a: int, b: int| 0 <= a < b < new_list.players@.len() implies
            new_list.players@[a].uuid@ != new_list.players@[b].uuid@ by {
            if a != i && b != i {
                assert(new_list.players@[a] == old_list.players@[a]);
                assert(new_list.players@[b] == old_list.players@[b]);
            } else if a == i {
                assert(new_list.players@[b] == old_list.players@[b]);
            } else {
                assert(new_list.players@[a] == old_list.players@[a]);
            }
        }
        assert forall|v: (u64, u64)| #[trigger] new_list.view().contains_key(v)
            == old_list.view().insert(u, new_list.players@[i].view()).contains_key(v) by {
            if new_list.view().contains_key(v) {
                let j = choose|j: int| 0 <= j < new_list.players@.len() && new_list.players@[j].uuid@ == v;
                if j != i {
                    assert(old_list.players@[j].uuid@ == v);
                }
            }
            if old_list.view().contains_key(v) {
                let j = choose|j: int| 0 <= j < old_list.players@.len() && old_list.players@[j].uuid@ == v;
                if j != i {
                    assert(new_list.players@[j].uuid@ == v);
                }
            }
            if v == u {
                assert(new_list.players@[i].uuid@ == v);
            }
        }
        assert forall|v: (u64, u64)| new_list.view().contains_key(v) implies
            #[trigger] new_list.view()[v] == old_list.view().insert(u, new_list.players@[i].view())[v] by {
            let j = choose|j: int| 0 <= j < new_list.players@.len() && new_list.players@[j].uuid@ == v;
            new_list.lemma_lookup(j);
            if j != i {
                assert(new_list.players@[j] == old_list.players@[j]);
                old_list.lemma_lookup(j);
            }
        }
        assert(new_list.view() =~= old_list.view().insert(u, new_list.players@[i].view()));
    }

    proof fn lemma_push(old_list: &PlayerList, new_list: &PlayerList)
        requires
            old_list.wf(),
            new_list.players@.len() == old_list.players@.len() + 1,
            forall|j: int| 0 <= j < old_list.players@.len() ==> new_list.players@[j] == old_list.players@[j],
            !old_list.view().contains_key(new_list.players@[old_list.players@.len() as int].uuid@),
        ensures
            new_list.wf(),
            new_list.view() == old_list.view().insert(
                new_list.players@[old_list.players@.len() as int].uuid@,
                new_list.players@[old_list.players@.len() as int].view(),
            ),
    {
        let n = old_list.players@.len() as int;
        let u = new_list.players@[n].uuid@;
        assert forall|a: int, b: int| 0 <= a < b < new_list.players@.len() implies
            new_list.players@[a].uuid@ != new_list.players@[b].uuid@ by {
            assert(new_list.players@[a] == old_list.players@[a]);
            if b < n {
                assert(new_list.players@[b] == old_list.players@[b]);
            } else {
                assert(old_list.players@[a].uuid@ != u);
            }
        }
        assert forall|v: (u64, u64)| #[trigger] new_list.view().contains_key(v)
            == old_list.view().insert(u, new_list.players@[n].view()).contains_key(v) by {
            if new_list.view().contains_key(v) {
                let j = choose|j: int| 0 <= j < new_list.players@.len() && new_list.players@[j].uuid@ == v;
                if j < n {
                    assert(old_list.players@[j].uuid@ == v);
                }
            }
            if old_list.view().contains_key(v) {
                let j = choose|j: int| 0 <= j < old_list.players@.len() && old_list.players@[j].uuid@ == v;
                assert(new_list.players@[j].uuid@ == v);
            }
            if v == u {
                assert(new_list.players@[n].uuid@ == v);
            }
        }
        assert forall|v: (u64, u64)| new_list.view().contains_key(v) implies
            #[trigger] new_list.view()[v] == old_list.view().insert(u, new_list.players@[n].view())[v] by {
            let j = choose|j: int| 0 <= j < new_list.players@.len() && new_list.players@[j].uuid@ == v;
            new_list.lemma_lookup(j);
            if j < n {
                assert(new_list.players@[j] == old_list.players@[j]);
                old_list.lemma_lookup(j);
            }
        }
        assert(new_list.view() =~= old_list.view().insert(u, new_list.players@[n].view()));
    }

    proof fn lemma_remove(old_list: &PlayerList, new_list: &PlayerList, i: int)
        requires
            old_list.wf(),
            0 <= i < old_list.players@.len(),
            new_list.players@ == old_list.players@.remove(i),
        ensures
            new_list.wf(),
            new_list.view() == old_list.view().remove(old_list.players@[i].uuid@),
    {
        let u = old_list.players@[i].uuid@;
        assert forall|v: (u64, u64)| #[trigger] new_list.view().contains_key(v)
            == old_list.view().remove(u).contains_key(v) by {
            if new_list.view().contains_key(v) {
                let j = choose|j: int| 0 <= j < new_list.players@.len() && new_list.players@[j].uuid@ == v;
                let k = if j < i { j } else { j + 1 };
                assert(old_list.players@[k].uuid@ == v);
                assert(k != i);
            }
            if old_list.view().contains_key(v) && v != u {
                let j = choose|j: int| 0 <= j < old_list.players@.len() && old_list.players@[j].uuid@ == v;
                assert(j != i);
                let k = if j < i { j } else { j - 1 };
                assert(new_list.players@[k].uuid@ == v);
            }
        }
        assert forall|v: (u64, u64)| new_list.view().contains_key(v) implies
            #[trigger] new_list.view()[v] == old_list.view().remove(u)[v] by {
            let j = choose|j: int| 0 <= j < new_list.players@.len() && new_list.players@[j].uuid@ == v;
            new_list.lemma_lookup(j);
            let k = if j < i { j } else { j + 1 };
            assert(new_list.players@[j] == old_list.players@[k]);
            old_list.lemma_lookup(k);
        }
        assert(new_list.view() =~= old_list.view().remove(u));
    }

    /// Applies one update of the player list; `skin` is the skin address
    /// that an added player's textures give (see `skin_url`), if any.
    pub fn apply(&mut self, detail: PlayerDetail, skin: Option<String>)
        requires
            old(self).wf(),
        ensures
            final(self).wf(),
            final(self).view() == updated(old(self).view(), detail@, opt_view(skin)),
    {
        let ghost d = detail@;
        match detail {
            PlayerDetail::Add { uuid, name, gamemode, ping, display, .. } => {
                match self.position(&uuid) {
                    Some(i) => {
                        proof {
                            self.lemma_lookup(i as int);
                        }
                        let skin_url = match skin {
                            Some(s) => Some(s),
                            None => match &self.players[i].skin_url {
                                Some(s) => Some(s.clone()),
                                None => None,
                            },
                        };
                        let info = PlayerInfo {
                            name,
                            uuid,
                            skin_url,
                            display_name: display,
                            ping: ping.0,
                            gamemode: Gamemode::from_int(gamemode.0),
                        };
                        let ghost before = *self;
                        self.players.set(i, info);
                        proof {
                            Self::lemma_replace(&before, self, i as int);
                        }
                    },
                    None => {
                        let info = PlayerInfo {
                            name,
                            uuid,
                            skin_url: skin,
                            display_name: display,
                            ping: ping.0,
                            gamemode: Gamemode::from_int(gamemode.0),
                        };
                        let ghost before = *self;
                        self.players.push(info);
                        proof {
                            Self::lemma_push(&before, self);
                        }
                    },
                }
            },
            PlayerDetail::UpdateGamemode { uuid, gamemode } => {
                if let Some(i) = self.position(&uuid) {
                    proof {
                        self.lemma_lookup(i as int);
                    }
                    let ghost before = *self;
                    let p = &mut self.players[i];
                    p.gamemode = Gamemode::from_int(gamemode.0);
                    proof {
                        Self::lemma_replace(&before, self, i as int);
                    }
                }
            },
            PlayerDetail::UpdateLatency { uuid, ping } => {
                if let Some(i) = self.position(&uuid) {
                    proof {
                        self.lemma_lookup(i as int);
                    }
                    let ghost before = *self;
                    let p = &mut self.players[i];
                    p.ping = ping.0;
                    proof {
                        Self::lemma_replace(&before, self, i as int);
                    }
                }
            },
            PlayerDetail::UpdateDisplayName { uuid, display } => {
                if let Some(i) = self.position(&uuid) {
                    proof {
                        self.lemma_lookup(i as int);
                    }
                    let ghost before = *self;
                    let p = &mut self.players[i];
                    p.display_name = display;
                    proof {
                        Self::lemma_replace(&before, self, i as int);
                    }
                }
            },
            PlayerDetail::Remove { uuid } => {
                if let Some(i) = self.position(&uuid) {
                    let ghost before = *self;
                    self.players.remove(i);
                    proof {
                        Self::lemma_remove(&before, self, i as int);
                    }
                }
            },
        }
    }

    /// Applies updates in order; `skins[k]` goes with `details[k]` (see
    /// `apply`).
    pub fn on_player_info(&mut self, details: Vec<PlayerDetail>, skins: Vec<Option<String>>)
        requires
            old(self).wf(),
            details@.len() == skins@.len(),
        ensures
            final(self).wf(),
            final(self).view() == updated_all(old(self).view(),
                details@.map_values(|d: PlayerDetail| d@), skins@.map_values(|s: Option<String>| opt_view(s))),
    {
        let ghost ds = details@.map_values(|d: PlayerDetail| d@);
        let ghost ss = skins@.map_values(|s: Option<String>| opt_view(s));
        let ghost start = self.view();
        let mut details = details;
        let mut skins = skins;
        let ghost dvec = details@;
        let ghost svec = skins@;
        let ghost n = ds.len();
        let total = details.len();
        let mut k: usize = 0;
        while details.len() > 0
            invariant
                self.wf(),
                n == total,
                k <= n,
                ds.len() == n,
                ss.len() == n,
                dvec.len() == n,
                svec.len() == n,
                details@ == dvec.subrange(k as int, n as int),
                skins@ == svec.subrange(k as int, n as int),
                ds == dvec.map_values(|d: PlayerDetail| d@),
                ss == svec.map_values(|s: Option<String>| opt_view(s)),
                self.view() == updated_all(start, ds.subrange(0, k as int), ss.subrange(0, k as int)),
            decreases details@.len(),
        {
            let d = details.remove(0);
            let sk = skins.remove(0);
            proof {
                assert(ds.subrange(0, k + 1).drop_last() =~= ds.subrange(0, k as int));
                assert(ss.subrange(0, k + 1).drop_last() =~= ss.subrange(0, k as int));
                assert(d == dvec[k as int]);
                assert(sk == svec[k as int]);
            }
            self.apply(d, sk);
            k = k + 1;
            proof {
                assert(details@ =~= dvec.subrange(k as int, n as int));
                assert(skins@ =~= svec.subrange(k as int, n as int));
            }
        }
        proof {
            assert(ds.subrange(0, n as int) =~= ds);
            assert(ss.subrange(0, n as int) =~= ss);
        }
    }
}

/// The player list after updates in order, each with its skin address.
pub open spec fn updated_all(players: Map<(u64, u64), PlayerView>, ds: Seq<PlayerDetailView>, ss: Seq<Option<Seq<char>>>)
    -> Map<(u64, u64), PlayerView>
    decreases ds.len(),
{
    if ds.len() == 0 || ss.len() != ds.len() {
        players
    } else {
        updated(updated_all(players, ds.drop_last(), ss.drop_last()), ds.last(), ss.last())
    }
}

/// Applying a list of updates is applying them one after the other, in
/// order: a single update is `updated`, and two lists in a row are their
/// concatenation.
pub proof fn lemma_updated_all_in_order(
    players: Map<(u64, u64), PlayerView>,
    a: Seq<PlayerDetailView>,
    sa: Seq<Option<Seq<char>>>,
    b: Seq<PlayerDetailView>,
    sb: Seq<Option<Seq<char>>>,
)
    requires
        a.len() == sa.len(),
        b.len() == sb.len(),
    ensures
        a.len() == 1 ==> updated_all(players, a, sa) == updated(players, a[0], sa[0]),
        updated_all(players, a + b, sa + sb) == updated_all(updated_all(players, a, sa), b, sb),
    decreases b.len(),
{
    if a.len() == 1 {
        assert(a.drop_last().len() == 0);
        assert(updated_all(players, a.drop_last(), sa.drop_last()) == players);
        assert(a.last() == a[0] && sa.last() == sa[0]);
    }
    if b.len() == 0 {
        assert(a + b =~= a);
        assert(sa + sb =~= sa);
    } else {
        lemma_updated_all_in_order(players, a, sa, b.drop_last(), sb.drop_last());
        assert((a + b).drop_last() =~= a + b.drop_last());
        assert((sa + sb).drop_last() =~= sa + sb.drop_last());
        assert((a + b).last() == b.last());
        assert((sa + sb).last() == sb.last());
    }
}

/// The skin address a decoded texture description gives: its
/// `textures.SKIN.url` text.
pub open spec fn skin_of(blob: JsonView) -> Option<Seq<char>> {
    match json_get(blob, "textures"@) {
        Some(t) => match json_get(t, "SKIN"@) {
            Some(k) => match json_get(k, "url"@) {
                Some(u) => json_str(u),
                None => None,
            },
            None => None,
        },
        None => None,
    }
}

/// The skin address the last readable texture description gives, if any.
pub open spec fn last_skin(blobs: Seq<Option<JsonView>>) -> Option<Seq<char>>
    decreases blobs.len(),
{
    if blobs.len() == 0 {
        None
    } else {
        match blobs.last() {
            Some(b) => match skin_of(b) {
                Some(u) => Some(u),
                None => last_skin(blobs.drop_last()),
            },
            None => last_skin(blobs.drop_last()),
        }
    }
}

/// The values of the properties named `textures`, in order: each is a
/// base64 texture description.
pub fn texture_values(props: &[PlayerProperty]) -> (r: Vec<String>)
    ensures
        r@.map_values(|s: String| s@) == props@.filter(|p: PlayerProperty| p.name@ == "textures"@).map_values(|p: PlayerProperty| p.value@),
{
    let mut r: Vec<String> = Vec::new();
    let mut i: usize = 0;
    while i < props.len()
        invariant
            i <= props@.len(),
            r@.map_values(|s: String| s@) == props@.subrange(0, i as int).filter(|p: PlayerProperty| p.name@ == "textures"@)
                .map_values(|p: PlayerProperty| p.value@),
        decreases props@.len() - i,
    {
        proof {
            assert(props@.subrange(0, i + 1).drop_last() =~= props@.subrange(0, i as int));
            reveal(Seq::filter);
        }
        let ghost before = r@;
        if str_eq(props[i].name.as_str(), "textures") {
            r.push(props[i].value.clone());
            proof {
                assert(r@.map_values(|s: String| s@) =~= before.map_values(|s: String| s@).push(props@[i as int].value@));
            }
        }
        i = i + 1;
    }
    proof {
        assert(props@.subrange(0, props@.len() as int) =~= props@);
    }
    r
}

/// The views of decoded texture descriptions.
pub open spec fn blob_views(blobs: Seq<Option<JsonValue>>) -> Seq<Option<JsonView>> {
    blobs.map_values(|b: Option<JsonValue>| match b {
        Some(v) => Some(json_view(v)),
        None => None,
    })
}

/// The skin address given by texture descriptions, decoded in order
/// (`None` for one that did not decode): the last one that names a skin.
pub fn skin_url(blobs: &[Option<JsonValue>]) -> (r: Option<String>)
    ensures
        opt_view(r) == last_skin(blob_views(blobs@)),
{
    let ghost bv = blob_views(blobs@);
    let mut k: usize = blobs.len();
    proof {
        assert(bv.subrange(0, k as int) =~= bv);
    }
    while k > 0
        invariant
            bv == blob_views(blobs@),
            k <= blobs@.len(),
            bv.len() == blobs@.len(),
            last_skin(bv) == last_skin(bv.subrange(0, k as int)),
            forall|j: int| 0 <= j < blobs@.len() ==> #[trigger] bv[j] == match blobs@[j] {
                Some(v) => Some(json_view(v)),
                None => None,
            },
        decreases k,
    {
        proof {
            assert(bv.subrange(0, k as int).drop_last() =~= bv.subrange(0, k - 1));
        }
        match &blobs[k - 1] {
            Some(b) => {
                let url = match b.get("textures") {
                    Some(t) => match t.get("SKIN") {
                        Some(sk) => match sk.get("url") {
                            Some(u) => u.as_str(),
                            None => None,
                        },
                        None => None,
                    },
                    None => None,
                };
                assert(match url {
                    Some(u) => skin_of(json_view(*b)) == Some(u@),
                    None => skin_of(json_view(*b)) is None,
                });
                if let Some(u) = url {
                    proof {
                        assert(bv[k - 1] == Some(json_view(*b)));
                        let sub = bv.subrange(0, k as int);
                        assert(sub.last() == Some(json_view(*b)));
                        assert(last_skin(sub) == Some(u@));
                    }
                    return Some(u.to_owned());
                }
                proof {
                    assert(bv.subrange(0, k as int).last() == Some(json_view(*b)));
                }
            },
            None => {
                proof {
                    assert(bv.subrange(0, k as int).last() is None);
                }
            },
        }
        k = k - 1;
    }
    None
}

} // verus!
