use vstd::prelude::*;

verus! {

/// How full a liquid block of the given level looks, out of 7 (level 0 is a
/// source block, higher levels have flowed further).
pub open spec fn fullness(level: i32) -> int {
    7 - (level & 0x7)
}

/// The height of a liquid corner (0 to 8) from the four columns that meet
/// at it: `above[i]` and `here[i]` are the liquid levels of column `i` one
/// block up and at the height of the block (`None` where there is no liquid
/// of the kind). Liquid above any column makes the corner full (8);
/// otherwise the corner is as high as its fullest neighbour (0 for none).
pub fn average_liquid_level(above: &[Option<i32>], here: &[Option<i32>]) -> (level: i32)
    requires
        above@.len() == 4,
        here@.len() == 4,
    ensures
        (exists|i: int| 0 <= i < 4 && #[trigger] above@[i] is Some) ==> level == 8,
        (forall|i: int| 0 <= i < 4 ==> #[trigger] above@[i] is None) ==> {
            &&& 0 <= level
            &&& forall|i: int| 0 <= i < 4 && #[trigger] here@[i] is Some ==> fullness(here@[i]->0) <= level
            &&& (level == 0 || exists|i: int| 0 <= i < 4 && #[trigger] here@[i] is Some && fullness(here@[i]->0) == level)
        },
{
    let mut level: i32 = 0;
    let mut i: usize = 0;
    while i < 4
        invariant
            above@.len() == 4,
            here@.len() == 4,
            i <= 4,
            forall|j: int| 0 <= j < i ==> #[trigger] above@[j] is None,
            0 <= level <= 7,
            forall|j: int| 0 <= j < i && #[trigger] here@[j] is Some ==> fullness(here@[j]->0) <= level,
            level == 0 || exists|j: int| 0 <= j < i && #[trigger] here@[j] is Some && fullness(here@[j]->0) == level,
        decreases 4 - i,
    {
        if above[i].is_some() {
            return 8;
        }
        match here[i] {
            Some(l) => {
                proof {
                    assert(0 <= l & 0x7 <= 7) by (bit_vector);
                }
                let nl = 7 - (l & 0x7);
                if nl > level {
                    level = nl;
                }
            },
            None => {},
        }
        i = i + 1;
    }
    level
}

} // verus!
