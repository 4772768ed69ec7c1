use vstd::prelude::*;
use std::marker::PhantomData;
use crate::console::{Console, CVar, VarStateView, VarValue};

verus! {

/// SDL key codes of the default key bindings.
pub const KEY_W: i64 = 119;
pub const KEY_S: i64 = 115;
pub const KEY_A: i64 = 97;
pub const KEY_D: i64 = 100;
pub const KEY_E: i64 = 101;
pub const KEY_SPACE: i64 = 32;
pub const KEY_LCTRL: i64 = 1073742048;
pub const KEY_LSHIFT: i64 = 1073742049;

/// `r_max_fps` caps the frame rate of the renderer.
pub fn r_max_fps() -> (v: CVar<i64>)
    ensures
        v.name@ == "r_max_fps"@,
        v.default == 60,
{
    CVar {
        ty: PhantomData,
        name: "r_max_fps",
        description: "fps_max caps the maximum FPS for the rendering engine",
        mutable: true,
        serializable: true,
        default: 60,
    }
}

/// `r_fov` is the field of view.
pub fn r_fov() -> (v: CVar<i64>)
    ensures
        v.name@ == "r_fov"@,
        v.default == 90,
{
    CVar {
        ty: PhantomData,
        name: "r_fov",
        description: "Setting for controlling the client field of view",
        mutable: true,
        serializable: true,
        default: 90,
    }
}

/// `r_vsync` turns vertical sync on or off.
pub fn r_vsync() -> (v: CVar<bool>)
    ensures
        v.name@ == "r_vsync"@,
        v.default == true,
{
    CVar {
        ty: PhantomData,
        name: "r_vsync",
        description: "Toggle to enable/disable vsync",
        mutable: true,
        serializable: true,
        default: true,
    }
}

/// `cl_master_volume` is the main volume.
pub fn cl_master_volume() -> (v: CVar<i64>)
    ensures
        v.name@ == "cl_master_volume"@,
        v.default == 100,
{
    CVar {
        ty: PhantomData,
        name: "cl_master_volume",
        description: "Main volume control",
        mutable: true,
        serializable: true,
        default: 100,
    }
}

fn keybind(name: &'static str, description: &'static str, key: i64) -> (v: CVar<i64>)
    ensures
        v.name == name,
        v.description == description,
        v.default == key,
{
    CVar { ty: PhantomData, name, description, mutable: true, serializable: true, default: key }
}

/// The key for moving forward.
pub fn cl_keybind_forward() -> (v: CVar<i64>)
    ensures
        v.name@ == "cl_keybind_forward"@,
        v.default == KEY_W,
{
    keybind("cl_keybind_forward", "Keybinding for moving forward", KEY_W)
}

/// The key for moving backward.
pub fn cl_keybind_backward() -> (v: CVar<i64>)
    ensures
        v.name@ == "cl_keybind_backward"@,
        v.default == KEY_S,
{
    keybind("cl_keybind_backward", "Keybinding for moving backward", KEY_S)
}

/// The key for moving left.
pub fn cl_keybind_left() -> (v: CVar<i64>)
    ensures
        v.name@ == "cl_keybind_left"@,
        v.default == KEY_A,
{
    keybind("cl_keybind_left", "Keybinding for moving the left", KEY_A)
}

/// The key for moving right.
pub fn cl_keybind_right() -> (v: CVar<i64>)
    ensures
        v.name@ == "cl_keybind_right"@,
        v.default == KEY_D,
{
    keybind("cl_keybind_right", "Keybinding for moving to the right", KEY_D)
}

/// The key for opening the inventory.
pub fn cl_keybind_open_inv() -> (v: CVar<i64>)
    ensures
        v.name@ == "cl_keybind_open_inv"@,
        v.default == KEY_E,
{
    keybind("cl_keybind_open_inv", "Keybinding for opening the inventory", KEY_E)
}

/// The key for sneaking.
pub fn cl_keybind_sneak() -> (v: CVar<i64>)
    ensures
        v.name@ == "cl_keybind_sneak"@,
        v.default == KEY_LSHIFT,
{
    keybind("cl_keybind_sneak", "Keybinding for sneaking", KEY_LSHIFT)
}

/// The key for sprinting.
pub fn cl_keybind_sprint() -> (v: CVar<i64>)
    ensures
        v.name@ == "cl_keybind_sprint"@,
        v.default == KEY_LCTRL,
{
    keybind("cl_keybind_sprint", "Keybinding for sprinting", KEY_LCTRL)
}

/// The key for jumping.
pub fn cl_keybind_jump() -> (v: CVar<i64>)
    ensures
        v.name@ == "cl_keybind_jump"@,
        v.default == KEY_SPACE,
{
    keybind("cl_keybind_jump", "Keybinding for jumping", KEY_SPACE)
}

/// The names of the settings variables, in registration order.
pub open spec fn settings_names() -> Seq<Seq<char>> {
    seq![
        "r_max_fps"@, "r_fov"@, "r_vsync"@, "cl_master_volume"@, "cl_keybind_forward"@,
        "cl_keybind_backward"@, "cl_keybind_left"@, "cl_keybind_right"@, "cl_keybind_open_inv"@,
        "cl_keybind_sneak"@, "cl_keybind_sprint"@, "cl_keybind_jump"@,
    ]
}

/// The defaults of the settings variables, in the same order.
pub open spec fn settings_defaults() -> Seq<VarStateView> {
    seq![
        VarStateView::Int(60), VarStateView::Int(90), VarStateView::Bool(true), VarStateView::Int(100),
        VarStateView::Int(KEY_W), VarStateView::Int(KEY_S), VarStateView::Int(KEY_A), VarStateView::Int(KEY_D),
        VarStateView::Int(KEY_E), VarStateView::Int(KEY_LSHIFT), VarStateView::Int(KEY_LCTRL), VarStateView::Int(KEY_SPACE),
    ]
}

/// `m` with each name of `names` set to the value at the same place of `values`.
pub open spec fn insert_all(m: Map<Seq<char>, VarStateView>, names: Seq<Seq<char>>, values: Seq<VarStateView>) -> Map<Seq<char>, VarStateView>
    decreases names.len(),
{
    if names.len() == 0 {
        m
    } else {
        insert_all(m, names.drop_last(), values.drop_last()).insert(names.last(), values.last())
    }
}

proof fn reveal_settings_names()
    ensures
        settings_names()[0] == "r_max_fps"@,
        settings_names()[1] == "r_fov"@,
        settings_names()[2] == "r_vsync"@,
        settings_names()[3] == "cl_master_volume"@,
        settings_names()[4] == "cl_keybind_forward"@,
        settings_names()[5] == "cl_keybind_backward"@,
        settings_names()[6] == "cl_keybind_left"@,
        settings_names()[7] == "cl_keybind_right"@,
        settings_names()[8] == "cl_keybind_open_inv"@,
        settings_names()[9] == "cl_keybind_sneak"@,
        settings_names()[10] == "cl_keybind_sprint"@,
        settings_names()[11] == "cl_keybind_jump"@,
        settings_names().len() == 12,
{
}

/// Registers the rendering, sound and key binding variables with their defaults.
pub fn register_vars(console: &mut Console)
    requires
        old(console).wf(),
        forall|i: int| 0 <= i < 12 ==> !old(console)@.contains_key(#[trigger] settings_names()[i]),
    ensures
        final(console).wf(),
        final(console)@ == insert_all(old(console)@, settings_names(), settings_defaults()),
{
    proof {
        reveal_settings_names();
        reveal_strlit("r_max_fps");
        reveal_strlit("r_fov");
        reveal_strlit("r_vsync");
        reveal_strlit("cl_master_volume");
        reveal_strlit("cl_keybind_forward");
        reveal_strlit("cl_keybind_backward");
        reveal_strlit("cl_keybind_left");
        reveal_strlit("cl_keybind_right");
        reveal_strlit("cl_keybind_open_inv");
        reveal_strlit("cl_keybind_sneak");
        reveal_strlit("cl_keybind_sprint");
        reveal_strlit("cl_keybind_jump");
        assert(!old(console)@.contains_key(settings_names()[0]));
        assert(!old(console)@.contains_key(settings_names()[1]));
        assert(!old(console)@.contains_key(settings_names()[2]));
        assert(!old(console)@.contains_key(settings_names()[3]));
        assert(!old(console)@.contains_key(settings_names()[4]));
        assert(!old(console)@.contains_key(settings_names()[5]));
        assert(!old(console)@.contains_key(settings_names()[6]));
        assert(!old(console)@.contains_key(settings_names()[7]));
        assert(!old(console)@.contains_key(settings_names()[8]));
        assert(!old(console)@.contains_key(settings_names()[9]));
        assert(!old(console)@.contains_key(settings_names()[10]));
        assert(!old(console)@.contains_key(settings_names()[11]));
    }
    console.register(r_max_fps());
    proof {
        assert("r_fov"@.len() == 5 && "r_max_fps"@.len() == 9 && "r_vsync"@.len() == 7);
        assert("cl_master_volume"@.len() == 16 && "cl_keybind_forward"@.len() == 18
            && "cl_keybind_backward"@.len() == 19 && "cl_keybind_left"@.len() == 15
            && "cl_keybind_right"@.len() == 16 && "cl_keybind_open_inv"@.len() == 19
            && "cl_keybind_sneak"@.len() == 16 && "cl_keybind_sprint"@.len() == 17
            && "cl_keybind_jump"@.len() == 15);
        assert("cl_master_volume"@[3] == 'm' && "cl_keybind_right"@[3] == 'k' && "cl_keybind_sneak"@[3] == 'k'
            && "cl_keybind_right"@[11] == 'r' && "cl_keybind_sneak"@[11] == 's'
            && "cl_keybind_backward"@[11] == 'b' && "cl_keybind_open_inv"@[11] == 'o'
            && "cl_keybind_left"@[11] == 'l' && "cl_keybind_jump"@[11] == 'j');
    }
    console.register(r_fov());
    console.register(r_vsync());
    console.register(cl_master_volume());
    console.register(cl_keybind_forward());
    console.register(cl_keybind_backward());
    console.register(cl_keybind_left());
    console.register(cl_keybind_right());
    console.register(cl_keybind_open_inv());
    console.register(cl_keybind_sneak());
    console.register(cl_keybind_sprint());
    console.register(cl_keybind_jump());
    proof {
        reveal_with_fuel(insert_all, 13);
        let names = settings_names();
        let values = settings_defaults();
        assert(names.drop_last().drop_last().drop_last().drop_last().drop_last().drop_last().drop_last()
            .drop_last().drop_last().drop_last().drop_last().drop_last().len() == 0);
    }
}

/// The actions that keys can be bound to.
#[derive(Clone, Copy, Debug, Hash, PartialEq, Eq, Structural)]
pub enum Stevenkey {
    Forward,
    Backward,
    Left,
    Right,
    OpenInv,
    Sneak,
    Sprint,
    Jump,
}

/// The name of the variable that holds an action's key.
pub open spec fn keybind_name(k: Stevenkey) -> Seq<char> {
    match k {
        Stevenkey::Forward => "cl_keybind_forward"@,
        Stevenkey::Backward => "cl_keybind_backward"@,
        Stevenkey::Left => "cl_keybind_left"@,
        Stevenkey::Right => "cl_keybind_right"@,
        Stevenkey::OpenInv => "cl_keybind_open_inv"@,
        Stevenkey::Sneak => "cl_keybind_sneak"@,
        Stevenkey::Sprint => "cl_keybind_sprint"@,
        Stevenkey::Jump => "cl_keybind_jump"@,
    }
}

/// All actions, in declaration order.
pub open spec fn all_keys() -> Seq<Stevenkey> {
    seq![
        Stevenkey::Forward, Stevenkey::Backward, Stevenkey::Left, Stevenkey::Right,
        Stevenkey::OpenInv, Stevenkey::Sneak, Stevenkey::Sprint, Stevenkey::Jump,
    ]
}

/// Whether every action's variable is registered and holds a number.
pub open spec fn keybinds_registered(m: Map<Seq<char>, VarStateView>) -> bool {
    forall|k: Stevenkey| #[trigger] m.contains_key(keybind_name(k)) && m[keybind_name(k)] is Int
}

/// The key bound to an action.
pub open spec fn bound_key(m: Map<Seq<char>, VarStateView>, k: Stevenkey) -> i64 {
    m[keybind_name(k)]->Int_0
}

impl Stevenkey {
    /// All actions, in declaration order.
    pub fn values() -> (v: Vec<Stevenkey>)
        ensures
            v@ == all_keys(),
    {
        vec![
            Stevenkey::Forward,
            Stevenkey::Backward,
            Stevenkey::Left,
            Stevenkey::Right,
            Stevenkey::OpenInv,
            Stevenkey::Sneak,
            Stevenkey::Sprint,
            Stevenkey::Jump,
        ]
    }

    /// The variable that holds the action's key.
    pub fn get_cvar(&self) -> (v: CVar<i64>)
        ensures
            v.name@ == keybind_name(*self),
    {
        match *self {
            Stevenkey::Forward => cl_keybind_forward(),
            Stevenkey::Backward => cl_keybind_backward(),
            Stevenkey::Left => cl_keybind_left(),
            Stevenkey::Right => cl_keybind_right(),
            Stevenkey::OpenInv => cl_keybind_open_inv(),
            Stevenkey::Sneak => cl_keybind_sneak(),
            Stevenkey::Sprint => cl_keybind_sprint(),
            Stevenkey::Jump => cl_keybind_jump(),
        }
    }

    /// The first action (in declaration order) bound to `keycode`, if any.
    pub fn get_by_keycode(keycode: i64, console: &Console) -> (r: Option<Stevenkey>)
        requires
            console.wf(),
            keybinds_registered(console@),
        ensures
            r matches Some(k) ==> bound_key(console@, k) == keycode
                && exists|i: int| 0 <= i < 8 && all_keys()[i] == k
                    && forall|j: int| 0 <= j < i ==> bound_key(console@, #[trigger] all_keys()[j]) != keycode,
            r is None ==> forall|k: Stevenkey| bound_key(console@, k) != keycode,
    {
        let keys = Stevenkey::values();
        let mut i: usize = 0;
        while i < keys.len()
            invariant
                keys@ == all_keys(),
                i <= 8,
                console.wf(),
                keybinds_registered(console@),
                forall|j: int| 0 <= j < i ==> bound_key(console@, #[trigger] all_keys()[j]) != keycode,
            decreases 8 - i,
        {
            let k = keys[i];
            let cvar = k.get_cvar();
            proof {
                assert(console@.contains_key(keybind_name(k)));
            }
            let v: i64 = console.get(cvar);
            if v == keycode {
                return Some(k);
            }
            i = i + 1;
        }
        proof {
            assert forall|k: Stevenkey| bound_key(console@, k) != keycode by {
                let j: int = match k {
                    Stevenkey::Forward => 0,
                    Stevenkey::Backward => 1,
                    Stevenkey::Left => 2,
                    Stevenkey::Right => 3,
                    Stevenkey::OpenInv => 4,
                    Stevenkey::Sneak => 5,
                    Stevenkey::Sprint => 6,
                    Stevenkey::Jump => 7,
                };
                assert(all_keys()[j] == k);
            }
        }
        None
    }
}

} // verus!
