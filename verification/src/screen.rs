use vstd::prelude::*;
use crate::json::{JsonValue, JsonView, json_view, json_views, json_members_view, json_get, json_str,
    member_index, member_position, lemma_json_views_index, lemma_json_members_index};

verus! {

/// The servers listed in a `servers.json` document, if it has a `servers`
/// array.
pub open spec fn servers_of(v: JsonView) -> Option<Seq<JsonView>> {
    match json_get(v, "servers"@) {
        Some(JsonView::Array(a)) => Some(a),
        _ => None,
    }
}

/// The entry for a server: its name and address.
pub open spec fn server_entry(name: Seq<char>, address: Seq<char>) -> JsonView {
    JsonView::Object(seq![("name"@, JsonView::Str(name)), ("address"@, JsonView::Str(address))])
}

/// The document `v` with its `servers` member replaced by `servers`.
pub open spec fn with_servers(v: JsonView, servers: Seq<JsonView>) -> JsonView {
    match v {
        JsonView::Object(m) => match member_index(m, "servers"@) {
            Some(i) => JsonView::Object(m.update(i, ("servers"@, JsonView::Array(servers)))),
            None => v,
        },
        _ => v,
    }
}

/// The document written when there is no `servers.json` yet: no servers.
pub fn empty_servers() -> (v: JsonValue)
    ensures
        json_view(v) == JsonView::Object(seq![("servers"@, JsonView::Array(Seq::empty()))]),
{
    let mut m: Vec<(String, JsonValue)> = Vec::new();
    m.push(("servers".to_owned(), JsonValue::Array(Vec::new())));
    let v = JsonValue::Object(m);
    proof {
        lemma_json_members_index(m@);
        assert(json_views(Seq::<JsonValue>::empty()) =~= Seq::<JsonView>::empty());
        assert(json_members_view(m@) =~= seq![("servers"@, JsonView::Array(Seq::empty()))]);
    }
    v
}

/// The entry for a server.
fn entry(name: &str, address: &str) -> (v: JsonValue)
    ensures
        json_view(v) == server_entry(name@, address@),
{
    let mut m: Vec<(String, JsonValue)> = Vec::new();
    m.push(("name".to_owned(), JsonValue::String(name.to_owned())));
    m.push(("address".to_owned(), JsonValue::String(address.to_owned())));
    let v = JsonValue::Object(m);
    proof {
        lemma_json_members_index(m@);
        assert(json_members_view(m@) =~= seq![("name"@, JsonView::Str(name@)), ("address"@, JsonView::Str(address@))]);
    }
    v
}

/// A change to the list of servers.
enum ServerEdit {
    Replace(usize, JsonValue),
    Push(JsonValue),
    Remove(usize),
}

/// The list of servers after a change.
spec fn edited(servers: Seq<JsonView>, edit: ServerEdit) -> Seq<JsonView> {
    match edit {
        ServerEdit::Replace(i, v) => servers.update(i as int, json_view(v)),
        ServerEdit::Push(v) => servers.push(json_view(v)),
        ServerEdit::Remove(i) => servers.remove(i as int),
    }
}

/// Applies `edit` to the `servers` array of the document.
fn edit_servers(doc: JsonValue, edit: ServerEdit) -> (r: JsonValue)
    requires
        servers_of(json_view(doc)) is Some,
        edit matches ServerEdit::Replace(i, _) ==> i < servers_of(json_view(doc))->0.len(),
        edit matches ServerEdit::Remove(i) ==> i < servers_of(json_view(doc))->0.len(),
    ensures
        json_view(r) == with_servers(json_view(doc), edited(servers_of(json_view(doc))->0, edit)),
{
    let ghost old_servers = servers_of(json_view(doc))->0;
    let ghost old_view = json_view(doc);
    match doc {
        JsonValue::Object(mut m) => {
            proof {
                lemma_json_members_index(m@);
            }
            let ghost before = m@;
            let i = member_position(&m, "servers").unwrap();
            let mut member: (String, JsonValue) = (String::new(), JsonValue::Null);
            std::mem::swap(&mut member, &mut m[i]);
            proof {
                assert(member == before[i as int]);
                assert(json_members_view(before)[i as int] == (before[i as int].0@, json_view(before[i as int].1)));
                crate::json::lemma_first_member(json_members_view(before), "servers"@, 0);
                assert(before[i as int].0@ == "servers"@);
            }
            let (name, value) = member;
            let mut servers = match value {
                JsonValue::Array(a) => a,
                _ => {
                    proof {
                        assert(false);
                    }
                    Vec::new()
                },
            };
            proof {
                assert(json_views(servers@) == old_servers);
                lemma_json_views_index(servers@);
            }
            let ghost s0 = servers@;
            let ghost e = edit;
            match edit {
                ServerEdit::Replace(k, v) => {
                    servers.set(k, v);
                },
                ServerEdit::Push(v) => {
                    servers.push(v);
                },
                ServerEdit::Remove(k) => {
                    servers.remove(k);
                },
            }
            proof {
                lemma_json_views_index(servers@);
                assert(json_views(servers@) =~= edited(old_servers, e));
            }
            let ghost mid = m@;
            m.set(i, (name, JsonValue::Array(servers)));
            let r = JsonValue::Object(m);
            proof {
                lemma_json_members_index(m@);
                assert forall|j: int| 0 <= j < m@.len() && j != i implies m@[j] == before[j] by {
                    assert(m@[j] == mid[j]);
                }
                assert(json_members_view(m@) =~= json_members_view(before).update(i as int,
                    ("servers"@, JsonView::Array(edited(old_servers, e)))));
            }
            r
        },
        _ => {
            proof {
                assert(false);
            }
            doc
        },
    }
}

/// Stores a server in the list: over entry `index` where one is given,
/// else at the end.
pub fn save_servers(doc: JsonValue, index: Option<usize>, name: &str, address: &str) -> (r: JsonValue)
    requires
        servers_of(json_view(doc)) is Some,
        index matches Some(i) ==> i < servers_of(json_view(doc))->0.len(),
    ensures
        json_view(r) == with_servers(json_view(doc), match index {
            Some(i) => servers_of(json_view(doc))->0.update(i as int, server_entry(name@, address@)),
            None => servers_of(json_view(doc))->0.push(server_entry(name@, address@)),
        }),
{
    let e = entry(name, address);
    match index {
        Some(i) => edit_servers(doc, ServerEdit::Replace(i, e)),
        None => edit_servers(doc, ServerEdit::Push(e)),
    }
}

/// Takes entry `index` out of the list of servers.
pub fn delete_server(doc: JsonValue, index: usize) -> (r: JsonValue)
    requires
        servers_of(json_view(doc)) is Some,
        index < servers_of(json_view(doc))->0.len(),
    ensures
        json_view(r) == with_servers(json_view(doc), servers_of(json_view(doc))->0.remove(index as int)),
{
    edit_servers(doc, ServerEdit::Remove(index))
}

/// Whether every listed server has a name and an address.
pub open spec fn servers_readable(v: JsonView) -> bool {
    &&& servers_of(v) is Some
    &&& forall|i: int| 0 <= i < servers_of(v)->0.len() ==> {
        &&& #[trigger] json_str(json_get(servers_of(v)->0[i], "name"@)->0) is Some
        &&& json_get(servers_of(v)->0[i], "name"@) is Some
        &&& json_get(servers_of(v)->0[i], "address"@) is Some
        &&& json_str(json_get(servers_of(v)->0[i], "address"@)->0) is Some
    }
}

/// How many servers the document lists, if it has a `servers` array.
pub fn server_count(doc: &JsonValue) -> (r: Option<usize>)
    ensures
        match r {
            Some(n) => servers_of(json_view(*doc)) is Some && n == servers_of(json_view(*doc))->0.len(),
            None => servers_of(json_view(*doc)) is None,
        },
{
    match doc.get("servers") {
        Some(v) => match v.as_array() {
            Some(a) => {
                proof {
                    lemma_json_views_index(a@);
                }
                Some(a.len())
            },
            None => None,
        },
        None => None,
    }
}

/// Whether every listed server has a name and an address (see
/// `servers_readable`).
pub fn is_servers_readable(doc: &JsonValue) -> (b: bool)
    ensures
        b == servers_readable(json_view(*doc)),
{
    let servers = match doc.get("servers") {
        Some(v) => match v.as_array() {
            Some(a) => a,
            None => return false,
        },
        None => return false,
    };
    proof {
        lemma_json_views_index(servers@);
    }
    let mut i: usize = 0;
    while i < servers.len()
        invariant
            servers_of(json_view(*doc)) == Some(json_views(servers@)),
            json_views(servers@).len() == servers@.len(),
            forall|j: int| 0 <= j < servers@.len() ==> #[trigger] json_views(servers@)[j] == json_view(servers@[j]),
            i <= servers@.len(),
            forall|j: int| 0 <= j < i ==> {
                let s = #[trigger] json_views(servers@)[j];
                &&& json_get(s, "name"@) is Some
                &&& json_str(json_get(s, "name"@)->0) is Some
                &&& json_get(s, "address"@) is Some
                &&& json_str(json_get(s, "address"@)->0) is Some
            },
        decreases servers@.len() - i,
    {
        let s = &servers[i];
        let ok_name = match s.get("name") {
            Some(n) => n.as_str().is_some(),
            None => false,
        };
        let ok_address = match s.get("address") {
            Some(a) => a.as_str().is_some(),
            None => false,
        };
        if !(ok_name && ok_address) {
            proof {
                assert(json_views(servers@)[i as int] == json_view(servers@[i as int]));
                let t = json_views(servers@)[i as int];
                assert(!(json_get(t, "name"@) is Some && json_str(json_get(t, "name"@)->0) is Some
                    && json_get(t, "address"@) is Some && json_str(json_get(t, "address"@)->0) is Some));
            }
            return false;
        }
        proof {
            assert(json_views(servers@)[i as int] == json_view(servers@[i as int]));
        }
        i = i + 1;
    }
    true
}

/// The listed servers, in order: name and address.
pub fn server_entries(doc: &JsonValue) -> (r: Vec<(String, String)>)
    requires
        servers_readable(json_view(*doc)),
    ensures
        r@.len() == servers_of(json_view(*doc))->0.len(),
        forall|i: int| 0 <= i < r@.len() ==> {
            let s = servers_of(json_view(*doc))->0[i];
            &&& (#[trigger] r@[i]).0@ == json_str(json_get(s, "name"@)->0)->0
            &&& r@[i].1@ == json_str(json_get(s, "address"@)->0)->0
        },
{
    let servers = doc.get("servers").unwrap().as_array().unwrap();
    proof {
        lemma_json_views_index(servers@);
    }
    let mut r: Vec<(String, String)> = Vec::new();
    let mut i: usize = 0;
    while i < servers.len()
        invariant
            servers_readable(json_view(*doc)),
            json_views(servers@) == servers_of(json_view(*doc))->0,
            json_views(servers@).len() == servers@.len(),
            forall|j: int| 0 <= j < servers@.len() ==> #[trigger] json_views(servers@)[j] == json_view(servers@[j]),
            i <= servers@.len(),
            r@.len() == i,
            forall|j: int| 0 <= j < i ==> {
                let s = servers_of(json_view(*doc))->0[j];
                &&& (#[trigger] r@[j]).0@ == json_str(json_get(s, "name"@)->0)->0
                &&& r@[j].1@ == json_str(json_get(s, "address"@)->0)->0
            },
        decreases servers@.len() - i,
    {
        let s = &servers[i];
        proof {
            assert(json_views(servers@)[i as int] == json_view(servers@[i as int]));
            let _ = json_str(json_get(servers_of(json_view(*doc))->0[i as int], "name"@)->0);
        }
        let name = s.get("name").unwrap().as_str().unwrap().to_owned();
        let address = s.get("address").unwrap().as_str().unwrap().to_owned();
        r.push((name, address));
        i = i + 1;
    }
    r
}


/// A screen on the stack, with whether it has been set up and whether it
/// is showing.
struct ScreenInfo<S> {
    screen: S,
    init: bool,
    active: bool,
}

/// The stack of screens, the last one being the current one. Screens taken
/// off wait until the next tick tears them down.
pub struct ScreenSystem<S> {
    screens: Vec<ScreenInfo<S>>,
    remove_queue: Vec<ScreenInfo<S>>,
}

/// What the next tick does to the screens, for the caller to carry out in
/// this order.
pub struct TickPlan<S> {
    /// The screens taken off the stack, each with whether it must stop
    /// showing and whether it must then be torn down.
    pub removed: Vec<(S, bool, bool)>,
    /// The screens under the current one that must stop showing, by
    /// position from the bottom, in order.
    pub deactivate: Vec<usize>,
    /// Whether the current screen must be set up.
    pub init_current: bool,
    /// Whether the current screen must then start showing.
    pub activate_current: bool,
}

impl<S> ScreenSystem<S> {
    /// The screens on the stack, bottom first.
    pub closed spec fn stack(&self) -> Seq<S> {
        self.screens@.map_values(|i: ScreenInfo<S>| i.screen)
    }

    /// For each screen on the stack: whether it is set up, whether it is showing.
    pub closed spec fn states(&self) -> Seq<(bool, bool)> {
        self.screens@.map_values(|i: ScreenInfo<S>| (i.init, i.active))
    }

    /// The screens taken off and not yet torn down, in the order they left,
    /// each with whether it is showing and whether it is set up.
    pub closed spec fn removed(&self) -> Seq<(S, bool, bool)> {
        self.remove_queue@.map_values(|i: ScreenInfo<S>| (i.screen, i.active, i.init))
    }

    /// No screens.
    pub fn new() -> (sys: ScreenSystem<S>)
        ensures
            sys.stack() == Seq::<S>::empty(),
            sys.states() == Seq::<(bool, bool)>::empty(),
            sys.removed() == Seq::<(S, bool, bool)>::empty(),
    {
        let sys = ScreenSystem { screens: Vec::new(), remove_queue: Vec::new() };
        proof {
            assert(sys.stack() =~= Seq::<S>::empty());
            assert(sys.states() =~= Seq::<(bool, bool)>::empty());
            assert(sys.removed() =~= Seq::<(S, bool, bool)>::empty());
        }
        sys
    }

    /// Puts a screen on top; it is set up and shown on the next tick.
    pub fn add_screen(&mut self, screen: S)
        ensures
            final(self).stack() == old(self).stack().push(screen),
            final(self).states() == old(self).states().push((false, false)),
            final(self).removed() == old(self).removed(),
    {
        self.screens.push(ScreenInfo { screen, init: false, active: false });
        proof {
            assert(self.stack() =~= old(self).stack().push(screen));
            assert(self.states() =~= old(self).states().push((false, false)));
        }
    }

    /// Takes the top screen off, to be torn down on the next tick.
    pub fn pop_screen(&mut self)
        ensures
            old(self).stack().len() == 0 ==> {
                &&& final(self).stack() == old(self).stack()
                &&& final(self).states() == old(self).states()
                &&& final(self).removed() == old(self).removed()
            },
            old(self).stack().len() > 0 ==> {
                &&& final(self).stack() == old(self).stack().drop_last()
                &&& final(self).states() == old(self).states().drop_last()
                &&& final(self).removed() == old(self).removed().push((
                    old(self).stack().last(),
                    old(self).states().last().1,
                    old(self).states().last().0,
                ))
            },
    {
        if let Some(screen) = self.screens.pop() {
            self.remove_queue.push(screen);
            proof {
                assert(self.stack() =~= old(self).stack().drop_last());
                assert(self.states() =~= old(self).states().drop_last());
                assert(self.removed() =~= old(self).removed().push((screen.screen, screen.active, screen.init)));
            }
        }
    }

    /// Takes the top screen off (if any) and puts `screen` on top.
    pub fn replace_screen(&mut self, screen: S)
        ensures
            old(self).stack().len() == 0 ==> {
                &&& final(self).stack() == old(self).stack().push(screen)
                &&& final(self).states() == old(self).states().push((false, false))
                &&& final(self).removed() == old(self).removed()
            },
            old(self).stack().len() > 0 ==> {
                &&& final(self).stack() == old(self).stack().drop_last().push(screen)
                &&& final(self).states() == old(self).states().drop_last().push((false, false))
                &&& final(self).removed() == old(self).removed().push((
                    old(self).stack().last(),
                    old(self).states().last().1,
                    old(self).states().last().0,
                ))
            },
    {
        self.pop_screen();
        self.add_screen(screen);
    }

    /// The current screen, if any.
    pub fn current(&self) -> (r: Option<&S>)
        ensures
            self.stack().len() == 0 ==> r is None,
            self.stack().len() > 0 ==> (r matches Some(s) && *s == self.stack().last()),
    {
        let n = self.screens.len();
        if n == 0 {
            None
        } else {
            Some(&self.screens[n - 1].screen)
        }
    }

    /// The screen at position `i` from the bottom.
    pub fn screen_at(&self, i: usize) -> (r: &S)
        requires
            i < self.stack().len(),
        ensures
            *r == self.stack()[i as int],
    {
        &self.screens[i].screen
    }

    /// Decides what this tick does to the screens and records it: the
    /// screens taken off are handed back to be torn down, the screens under
    /// the current one stop showing, and the current one is set up and shown.
    pub fn begin_tick(&mut self) -> (plan: TickPlan<S>)
        ensures
            plan.removed@ == old(self).removed(),
            final(self).removed() == Seq::<(S, bool, bool)>::empty(),
            final(self).stack() == old(self).stack(),
            final(self).states().len() == old(self).states().len(),
            old(self).stack().len() == 0 ==> {
                &&& plan.deactivate@.len() == 0
                &&& !plan.init_current
                &&& !plan.activate_current
            },
            old(self).stack().len() > 0 ==> {
                let n = old(self).stack().len() as int;
                &&& plan.init_current == !old(self).states()[n - 1].0
                &&& plan.activate_current == !old(self).states()[n - 1].1
                &&& final(self).states()[n - 1] == (true, true)
                &&& forall|i: int| 0 <= i < n - 1 ==> #[trigger] final(self).states()[i] == (old(self).states()[i].0, false)
                &&& forall|k: int| 0 <= k < plan.deactivate@.len() ==> {
                    &&& (#[trigger] plan.deactivate@[k]) < n - 1
                    &&& old(self).states()[plan.deactivate@[k] as int].1
                }
                &&& forall|k: int, l: int| 0 <= k < l < plan.deactivate@.len() ==> plan.deactivate@[k] < plan.deactivate@[l]
                &&& forall|i: int| 0 <= i < n - 1 && old(self).states()[i].1 ==>
                    exists|k: int| 0 <= k < plan.deactivate@.len() && #[trigger] plan.deactivate@[k] == i
            },
    {
        let mut queue: Vec<ScreenInfo<S>> = Vec::new();
        std::mem::swap(&mut queue, &mut self.remove_queue);
        let ghost q0 = queue@;
        let mut removed: Vec<(S, bool, bool)> = Vec::new();
        let mut qi: Vec<ScreenInfo<S>> = queue;
        let ghost total = q0.len();
        let total_len = qi.len();
        let mut taken: usize = 0;
        while qi.len() > 0
            invariant
                total == total_len,
                self.screens@ == old(self).screens@,
                self.remove_queue@.len() == 0,
                qi@ == q0.subrange(taken as int, total as int),
                taken <= total,
                total == q0.len(),
                removed@ == q0.subrange(0, taken as int).map_values(|i: ScreenInfo<S>| (i.screen, i.active, i.init)),
            decreases qi@.len(),
        {
            let info = qi.remove(0);
            removed.push((info.screen, info.active, info.init));
            proof {
                assert(info == q0[taken as int]);
                assert(removed@ =~= q0.subrange(0, taken + 1).map_values(|i: ScreenInfo<S>| (i.screen, i.active, i.init)));
            }
            taken = taken + 1;
            proof {
                assert(qi@ =~= q0.subrange(taken as int, total as int));
            }
        }
        proof {
            assert(q0.subrange(0, total as int) =~= q0);
            assert(self.removed() =~= Seq::<(S, bool, bool)>::empty());
        }
        let mut deactivate: Vec<usize> = Vec::new();
        let n = self.screens.len();
        if n == 0 {
            return TickPlan { removed, deactivate, init_current: false, activate_current: false };
        }
        let ghost s0 = self.screens@;
        assert(s0 == old(self).screens@);
        let mut i: usize = 0;
        while i < n - 1
            invariant
                n == s0.len(),
                n > 0,
                i <= n - 1,
                self.screens@.len() == n,
                self.remove_queue@.len() == 0,
                forall|j: int| 0 <= j < n ==> (#[trigger] self.screens@[j]).screen == s0[j].screen,
                forall|j: int| 0 <= j < n ==> (#[trigger] self.screens@[j]).init == s0[j].init,
                forall|j: int| 0 <= j < i ==> !(#[trigger] self.screens@[j]).active,
                forall|j: int| i <= j < n ==> (#[trigger] self.screens@[j]).active == s0[j].active,
                forall|k: int| 0 <= k < deactivate@.len() ==> (#[trigger] deactivate@[k]) < i && s0[deactivate@[k] as int].active,
                forall|k: int, l: int| 0 <= k < l < deactivate@.len() ==> deactivate@[k] < deactivate@[l],
                forall|j: int| 0 <= j < i && s0[j].active ==>
                    exists|k: int| 0 <= k < deactivate@.len() && #[trigger] deactivate@[k] == j,
            decreases n - 1 - i,
        {
            if self.screens[i].active {
                let ghost before = deactivate@;
                deactivate.push(i);
                let info = &mut self.screens[i];
                info.active = false;
                proof {
                    assert forall|j: int| 0 <= j < i + 1 && s0[j].active implies
                        exists|k: int| 0 <= k < deactivate@.len() && #[trigger] deactivate@[k] == j by {
                        if j < i {
                            let k = choose|k: int| 0 <= k < before.len() && #[trigger] before[k] == j;
                            assert(deactivate@[k] == before[k]);
                        } else {
                            assert(deactivate@[deactivate@.len() - 1] == j);
                        }
                    }
                }
            }
            i = i + 1;
        }
        let top = &mut self.screens[n - 1];
        let init_current = !top.init;
        let activate_current = !top.active;
        top.init = true;
        top.active = true;
        proof {
            assert(self.stack() =~= old(self).stack());
            assert(self.states().len() == old(self).states().len());
            assert(old(self).stack().len() == n);
            assert(self.states()[n - 1] == (true, true));
            assert forall|j: int| 0 <= j < n - 1 implies #[trigger] self.states()[j] == (old(self).states()[j].0, false) by {
                assert(self.screens@[j].init == s0[j].init);
                assert(!self.screens@[j].active);
            }
            assert(init_current == !old(self).states()[n - 1].0);
            assert(activate_current == !old(self).states()[n - 1].1);
            assert forall|k: int| 0 <= k < deactivate@.len() implies {
                &&& (#[trigger] deactivate@[k]) < n - 1
                &&& old(self).states()[deactivate@[k] as int].1
            } by {
                assert(s0[deactivate@[k] as int].active);
            }
        }
        let plan = TickPlan { removed, deactivate, init_current, activate_current };
        proof {
            assert forall|j: int| 0 <= j < n - 1 && old(self).states()[j].1 implies
                exists|k: int| 0 <= k < plan.deactivate@.len() && #[trigger] plan.deactivate@[k] == j by {
                assert(s0[j].active);
                let k = choose|k: int| 0 <= k < deactivate@.len() && #[trigger] deactivate@[k] == j;
                assert(plan.deactivate@[k] == j);
            }
        }
        plan
    }
}

} // verus!
