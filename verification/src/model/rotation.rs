use vstd::prelude::*;
use crate::shared::Direction;

verus! {

/// Where `val` first occurs in `rots`, or 0 when it does not occur.
pub open spec fn rotation_start(rots: Seq<Direction>, val: Direction) -> int {
    match rots.index_of_first(val) {
        Some(i) => i,
        None => 0,
    }
}

/// The slot reached from `val` after `offset` steps round the cycle `rots`.
pub open spec fn rotation_slot(rots: Seq<Direction>, val: Direction, offset: i32) -> int {
    (((rots.len() + rotation_start(rots, val) + offset) as i32) as usize % (rots.len() as usize)) as int
}

/// Turns `val` by `offset` steps round the cycle `rots`; directions listed in
/// `invalid` are left as they are, and one missing from the cycle starts from its
/// first slot.
pub fn rotate_direction(val: Direction, offset: i32, rots: &[Direction], invalid: &[Direction]) -> (r: Direction)
    requires
        !invalid@.contains(val) ==> {
            &&& 0 < rots@.len()
            &&& 2 * rots@.len() <= i32::MAX
            &&& rots@.len() + rotation_start(rots@, val) + offset <= i32::MAX
        },
    ensures
        invalid@.contains(val) ==> r == val,
        !invalid@.contains(val) ==> r == rots@[rotation_slot(rots@, val, offset)],
        !invalid@.contains(val) && rots@.len() + rotation_start(rots@, val) + offset >= 0 ==>
            r == rots@[(rots@.len() + rotation_start(rots@, val) + offset) % (rots@.len() as int)],
{
    let mut k: usize = 0;
    while k < invalid.len()
        invariant
            k <= invalid@.len(),
            forall|j: int| 0 <= j < k ==> invalid@[j] != val,
        decreases invalid@.len() - k,
    {
        if invalid[k] == val {
            return val;
        }
        k = k + 1;
    }
    proof {
        rots@.index_of_first_ensures(val);
    }
    let mut pos: usize = 0;
    let mut found = false;
    let mut i: usize = 0;
    while i < rots.len()
        invariant_except_break
            forall|j: int| 0 <= j < i ==> rots@[j] != val,
            !found,
            pos == 0,
        invariant
            i <= rots@.len(),
        ensures
            found ==> pos < rots@.len() && rots@[pos as int] == val
                && forall|j: int| 0 <= j < pos ==> rots@[j] != val,
            !found ==> pos == 0 && forall|j: int| 0 <= j < rots@.len() ==> rots@[j] != val,
        decreases rots@.len() - i,
    {
        if rots[i] == val {
            pos = i;
            found = true;
            break;
        }
        i = i + 1;
    }
    proof {
        if found {
            assert(rots@.contains(val));
            let f = rots@.index_of_first(val).unwrap();
            assert(rots@[f] == val);
            assert(!(f < pos as int));
            assert(!(pos < f));
        } else {
            assert(!rots@.contains(val));
        }
        assert(pos == rotation_start(rots@, val));
    }
    let len = rots.len() as i32;
    let sum = len + pos as i32 + offset;
    let idx = (sum as usize) % rots.len();
    rots[idx]
}

} // verus!
