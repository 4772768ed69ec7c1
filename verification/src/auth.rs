use vstd::prelude::*;
use std::marker::PhantomData;
use crate::console::{Console, CVar, VarStateView, VarValue};
use crate::settings::insert_all;

verus! {

fn string_var(name: &'static str, description: &'static str) -> (v: CVar<String>)
    ensures
        v.name == name,
        v.description == description,
        v.default@ == Seq::<char>::empty(),
        !v.mutable,
        v.serializable,
{
    CVar { ty: PhantomData, name, description, mutable: false, serializable: true, default: String::new() }
}

/// `cl_username`: the name the client connects to servers with.
pub fn cl_username() -> (v: CVar<String>)
    ensures
        v.name@ == "cl_username"@,
        v.default@ == Seq::<char>::empty(),
{
    string_var("cl_username", "cl_username is the username that the client will use to connect\nto servers.")
}

/// `cl_uuid`: the player's unique id.
pub fn cl_uuid() -> (v: CVar<String>)
    ensures
        v.name@ == "cl_uuid"@,
        v.default@ == Seq::<char>::empty(),
{
    string_var("cl_uuid", "cl_uuid is the uuid of the client. This is unique to a player\nunlike their username.")
}

/// `auth_token`: the token of this session.
pub fn auth_token() -> (v: CVar<String>)
    ensures
        v.name@ == "auth_token"@,
        v.default@ == Seq::<char>::empty(),
{
    string_var("auth_token", "auth_token is the token used for this session to auth to servers\nor relogin to this account.")
}

/// `auth_client_token`: a token that identifies this client across sessions.
pub fn auth_client_token() -> (v: CVar<String>)
    ensures
        v.name@ == "auth_client_token"@,
        v.default@ == Seq::<char>::empty(),
{
    string_var("auth_client_token", "auth_client_token is a token that stays static between sessions.\nUsed to identify this client vs others.")
}

/// The names of the account variables, in registration order.
pub open spec fn auth_names() -> Seq<Seq<char>> {
    seq!["cl_username"@, "cl_uuid"@, "auth_token"@, "auth_client_token"@]
}

/// Registers the account variables, each empty at first.
pub fn register_vars(console: &mut Console)
    requires
        old(console).wf(),
        forall|i: int| 0 <= i < 4 ==> !old(console)@.contains_key(#[trigger] auth_names()[i]),
    ensures
        final(console).wf(),
        final(console)@ == insert_all(old(console)@, auth_names(), Seq::new(4, |i: int| VarStateView::Str(Seq::empty()))),
{
    proof {
        reveal_strlit("cl_username");
        reveal_strlit("cl_uuid");
        reveal_strlit("auth_token");
        reveal_strlit("auth_client_token");
        assert(auth_names()[0] == "cl_username"@);
        assert(auth_names()[1] == "cl_uuid"@);
        assert(auth_names()[2] == "auth_token"@);
        assert(auth_names()[3] == "auth_client_token"@);
        assert(!old(console)@.contains_key(auth_names()[0]));
        assert(!old(console)@.contains_key(auth_names()[1]));
        assert(!old(console)@.contains_key(auth_names()[2]));
        assert(!old(console)@.contains_key(auth_names()[3]));
        assert("cl_username"@.len() == 11 && "cl_uuid"@.len() == 7 && "auth_token"@.len() == 10
            && "auth_client_token"@.len() == 17);
    }
    console.register(cl_username());
    console.register(cl_uuid());
    console.register(auth_token());
    console.register(auth_client_token());
    proof {
        reveal_with_fuel(insert_all, 5);
        let names = auth_names();
        let values = Seq::new(4, |i: int| VarStateView::Str(Seq::empty()));
        assert(names.drop_last().drop_last().drop_last().drop_last().len() == 0);
        assert(values.last() == VarStateView::Str(Seq::empty()));
        assert(values.drop_last().last() == VarStateView::Str(Seq::empty()));
        assert(values.drop_last().drop_last().last() == VarStateView::Str(Seq::empty()));
        assert(values.drop_last().drop_last().drop_last().last() == VarStateView::Str(Seq::empty()));
    }
}

} // verus!
