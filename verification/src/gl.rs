use vstd::prelude::*;

verus! {

/// The OpenGL bit of the colour buffer.
pub const COLOR_BUFFER_BIT: u32 = 0x4000;

/// The OpenGL bit of the depth buffer.
pub const DEPTH_BUFFER_BIT: u32 = 0x100;

/// What a clear call should clear.
pub enum ClearFlags {
    /// The colour buffer.
    Color,
    /// The depth buffer.
    Depth,
    /// Raw OpenGL bits.
    Internal(u32),
}

impl ClearFlags {
    /// The OpenGL bits that a flag stands for.
    pub open spec fn bits(self) -> u32 {
        match self {
            ClearFlags::Color => COLOR_BUFFER_BIT,
            ClearFlags::Depth => DEPTH_BUFFER_BIT,
            ClearFlags::Internal(val) => val,
        }
    }

    /// The OpenGL bits of the flag.
    pub fn internal(self) -> (v: u32)
        ensures
            v == self.bits(),
    {
        match self {
            ClearFlags::Color => COLOR_BUFFER_BIT,
            ClearFlags::Depth => DEPTH_BUFFER_BIT,
            ClearFlags::Internal(val) => val,
        }
    }
}

impl std::ops::BitOr for ClearFlags {
    type Output = ClearFlags;

    /// Both flags at once: the union of their OpenGL bits.
    fn bitor(self, rhs: ClearFlags) -> (r: ClearFlags)
        ensures
            r == ClearFlags::Internal(self.bits() | rhs.bits()),
            r.bits() == self.bits() | rhs.bits(),
    {
        ClearFlags::Internal(self.internal() | rhs.internal())
    }
}

impl vstd::std_specs::ops::BitOrSpecImpl for ClearFlags {
    open spec fn obeys_bitor_spec() -> bool {
        true
    }

    open spec fn bitor_req(self, rhs: ClearFlags) -> bool {
        true
    }

    open spec fn bitor_spec(self, rhs: ClearFlags) -> ClearFlags {
        ClearFlags::Internal(self.bits() | rhs.bits())
    }
}

} // verus!
