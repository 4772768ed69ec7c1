use vstd::prelude::*;
use crate::settings::Stevenkey;
use crate::server::Gamemode;

verus! {

/// Entities with this component fall.
pub struct Gravity {
    pub on_ground: bool,
}

impl Gravity {
    /// Falling, not yet on the ground.
    pub fn new() -> (g: Gravity)
        ensures
            !g.on_ground,
    {
        Gravity { on_ground: false }
    }
}

/// The position of an action in `Stevenkey::values()`.
pub open spec fn key_index(k: Stevenkey) -> int {
    match k {
        Stevenkey::Forward => 0,
        Stevenkey::Backward => 1,
        Stevenkey::Left => 2,
        Stevenkey::Right => 3,
        Stevenkey::OpenInv => 4,
        Stevenkey::Sneak => 5,
        Stevenkey::Sprint => 6,
        Stevenkey::Jump => 7,
    }
}

/// The player's movement state. The times of the last jump key press and
/// release are in milliseconds of a monotonic clock; `pressed_keys` holds,
/// by the action's position in `Stevenkey::values()`, whether its key is
/// down (an action past its end is up).
pub struct PlayerMovement {
    pub flying: bool,
    pub want_to_fly: bool,
    pub when_last_jump_pressed: Option<u64>,
    pub when_last_jump_released: Option<u64>,
    pub did_touch_ground: bool,
    pub pressed_keys: Vec<bool>,
}

impl PlayerMovement {
    /// On the ground, not flying, no key down.
    pub fn new() -> (m: PlayerMovement)
        ensures
            !m.flying,
            !m.want_to_fly,
            m.when_last_jump_pressed is None,
            m.when_last_jump_released is None,
            !m.did_touch_ground,
            m.pressed_keys@.len() == 0,
    {
        PlayerMovement {
            flying: false,
            want_to_fly: false,
            when_last_jump_pressed: None,
            when_last_jump_released: None,
            did_touch_ground: false,
            pressed_keys: Vec::new(),
        }
    }

    /// The flight part of a movement tick at time `now_ms`: a spectator
    /// always flies; pressing jump records the press, and a press that
    /// comes at most `double_jump_ms` (and under a second) after the last
    /// release toggles wanting to fly, which a mode that may fly but need
    /// not (creative) follows; releasing jump records the release.
    pub fn update_flight(&mut self, gamemode: Gamemode, now_ms: u64, double_jump_ms: u64)
        requires
            old(self).when_last_jump_released matches Some(r) ==> r <= now_ms,
        ensures
            final(self).pressed_keys@ == old(self).pressed_keys@,
            final(self).did_touch_ground == old(self).did_touch_ground,
            ({
                let jump = key_index(Stevenkey::Jump) < old(self).pressed_keys@.len()
                    && old(self).pressed_keys@[key_index(Stevenkey::Jump)];
                let flying0 = old(self).flying || gamemode == Gamemode::Spectator;
                let toggle = jump && old(self).when_last_jump_pressed is None
                    && (old(self).when_last_jump_released matches Some(r)
                        && now_ms - r < 1000 && now_ms - r <= double_jump_ms);
                &&& final(self).want_to_fly == (old(self).want_to_fly != toggle)
                &&& final(self).flying == (if toggle && gamemode == Gamemode::Creative { !old(self).want_to_fly } else { flying0 })
                &&& final(self).when_last_jump_pressed == (if jump {
                        if old(self).when_last_jump_pressed is None { Some(now_ms) } else { old(self).when_last_jump_pressed }
                    } else { None::<u64> })
                &&& final(self).when_last_jump_released == (if !jump && old(self).when_last_jump_pressed is Some {
                        Some(now_ms) } else { old(self).when_last_jump_released })
            }),
    {
        self.flying = self.flying || gamemode.always_fly();
        if self.is_key_pressed(Stevenkey::Jump) {
            if self.when_last_jump_pressed.is_none() {
                self.when_last_jump_pressed = Some(now_ms);
                match self.when_last_jump_released {
                    Some(released) => {
                        let dt = now_ms - released;
                        if dt < 1000 && dt <= double_jump_ms {
                            self.want_to_fly = !self.want_to_fly;
                            if gamemode.can_fly() && !gamemode.always_fly() {
                                self.flying = self.want_to_fly;
                            }
                        }
                    },
                    None => {},
                }
            }
        } else if self.when_last_jump_pressed.is_some() {
            self.when_last_jump_released = Some(now_ms);
            self.when_last_jump_pressed = None;
        }
    }

    /// Whether the key of an action is down.
    pub fn is_key_pressed(&self, key: Stevenkey) -> (b: bool)
        ensures
            b == (key_index(key) < self.pressed_keys@.len() && self.pressed_keys@[key_index(key)]),
    {
        let i: usize = match key {
            Stevenkey::Forward => 0,
            Stevenkey::Backward => 1,
            Stevenkey::Left => 2,
            Stevenkey::Right => 3,
            Stevenkey::OpenInv => 4,
            Stevenkey::Sneak => 5,
            Stevenkey::Sprint => 6,
            Stevenkey::Jump => 7,
        };
        i < self.pressed_keys.len() && self.pressed_keys[i]
    }
}

} // verus!
