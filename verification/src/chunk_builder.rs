use vstd::prelude::*;
use std::collections::VecDeque;
use crate::bit::set::BitSet;
use crate::shared::{Direction, direction_index};

verus! {

/// Which faces of a chunk section can be seen from which: bit
/// `from * 6 + to` is set when `to` is visible through the section from `from`.
#[derive(Clone, Copy, Default)]
pub struct CullInfo(u64);

impl View for CullInfo {
    type V = u64;

    closed spec fn view(&self) -> u64 {
        self.0
    }
}

/// The bit of a (from, to) pair of faces.
pub open spec fn pair_bit(from: Direction, to: Direction) -> u64 {
    (direction_index(from) * 6 + direction_index(to)) as u64
}

/// Whether the pair (from, to) is marked visible in `bits`.
pub open spec fn visible_in(bits: u64, from: Direction, to: Direction) -> bool {
    (bits >> pair_bit(from, to)) & 1 == 1
}

impl CullInfo {
    /// Nothing visible.
    pub fn new() -> (c: CullInfo)
        ensures
            c@ == 0,
    {
        CullInfo(0)
    }

    /// Everything visible.
    pub fn all_vis() -> (c: CullInfo)
        ensures
            c@ == 0xFFFF_FFFF_FFFF_FFFFu64,
    {
        CullInfo(0xFFFFFFFFFFFFFFFF)
    }

    /// Whether `to` can be seen from `from`.
    pub fn is_visible(&self, from: Direction, to: Direction) -> (b: bool)
        ensures
            b == visible_in(self@, from, to),
    {
        let bit = (from.index() * 6 + to.index()) as u64;
        proof {
            let v = self.0;
            assert(bit < 64 ==> ((v & (1u64 << bit)) != 0) == ((v >> bit) & 1 == 1)) by (bit_vector);
        }
        (self.0 & (1u64 << bit)) != 0
    }

    /// Marks (from, to) visible, leaving the other pairs as they were.
    pub fn set_visible(&mut self, from: Direction, to: Direction)
        ensures
            visible_in(final(self)@, from, to),
            forall|a: Direction, b: Direction| (a != from || b != to) ==>
                visible_in(final(self)@, a, b) == visible_in(old(self)@, a, b),
    {
        let bit = (from.index() * 6 + to.index()) as u64;
        let old_v = self.0;
        self.0 = self.0 | (1u64 << bit);
        proof {
            let nv = self.0;
            assert(bit < 64 ==> (nv >> bit) & 1 == 1) by (bit_vector) requires nv == old_v | (1u64 << bit);
            assert forall|a: Direction, b: Direction| (a != from || b != to) implies
                visible_in(nv, a, b) == visible_in(old_v, a, b) by {
                let c = pair_bit(a, b);
                assert(c != bit);
                assert(c < 64 && bit < 64 && c != bit ==> ((nv >> c) & 1 == 1) == ((old_v >> c) & 1 == 1)) by (bit_vector)
                    requires nv == old_v | (1u64 << bit);
            }
        }
    }
}

/// Block coordinates, as integers.
pub type Pos = (int, int, int);

/// The coordinates of a queued position.
pub open spec fn ip(t: (i32, i32, i32)) -> Pos {
    (t.0 as int, t.1 as int, t.2 as int)
}

/// Whether `p` lies inside the 16×16×16 section.
pub open spec fn in_section(p: Pos) -> bool {
    0 <= p.0 < 16 && 0 <= p.1 < 16 && 0 <= p.2 < 16
}

/// The index of block `p` of the section (`x | z << 4 | y << 8`).
pub open spec fn cell(p: Pos) -> int {
    p.0 + 16 * p.2 + 256 * p.1
}

/// A block inside the section that light and sight pass through.
pub open spec fn open_cell(cull: Seq<bool>, p: Pos) -> bool {
    in_section(p) && !cull[cell(p)]
}

/// The neighbour of `p` towards the direction of index `d`
/// (up, down, north, south, west, east).
pub open spec fn neighbour(p: Pos, d: int) -> Pos {
    if d == 0 {
        (p.0, p.1 + 1, p.2)
    } else if d == 1 {
        (p.0, p.1 - 1, p.2)
    } else if d == 2 {
        (p.0, p.1, p.2 - 1)
    } else if d == 3 {
        (p.0, p.1, p.2 + 1)
    } else if d == 4 {
        (p.0 - 1, p.1, p.2)
    } else {
        (p.0 + 1, p.1, p.2)
    }
}

/// The direction opposite to the one of index `d`.
pub open spec fn opposite(d: int) -> int {
    if d % 2 == 0 { d + 1 } else { d - 1 }
}

/// Whether `p` lies on the face of the section of direction index `f`.
pub open spec fn on_face(p: Pos, f: int) -> bool {
    ||| f == 0 && p.1 == 15
    ||| f == 1 && p.1 == 0
    ||| f == 2 && p.2 == 0
    ||| f == 3 && p.2 == 15
    ||| f == 4 && p.0 == 0
    ||| f == 5 && p.0 == 15
}

/// The faces that `p` lies on, as bits by direction index.
pub open spec fn face_bits(p: Pos) -> u8 {
    (if p.0 == 0 { 16u8 } else if p.0 == 15 { 32u8 } else { 0u8 })
        | (if p.1 == 0 { 2u8 } else if p.1 == 15 { 1u8 } else { 0u8 })
        | (if p.2 == 0 { 4u8 } else if p.2 == 15 { 8u8 } else { 0u8 })
}

/// Whether bit `f` of `v` is set.
pub open spec fn face_bit(v: u8, f: int) -> bool {
    (v >> (f as u8)) & 1 == 1
}

/// A set of blocks that holds, with each open block, its open neighbours.
pub open spec fn closed_region(cull: Seq<bool>, s: Set<Pos>) -> bool {
    forall|p: Pos, d: int| #![trigger s.contains(p), neighbour(p, d)]
        s.contains(p) && open_cell(cull, p) && 0 <= d < 6 && open_cell(cull, neighbour(p, d))
            ==> s.contains(neighbour(p, d))
}

/// `q` can be reached from `p` through open blocks: every closed region that
/// holds `p` holds `q`.
pub open spec fn linked(cull: Seq<bool>, p: Pos, q: Pos) -> bool {
    forall|s: Set<Pos>| #[trigger] closed_region(cull, s) && s.contains(p) ==> s.contains(q)
}

/// Whether some open block on face `f1` is linked to some open block on face `f2`.
pub open spec fn faces_linked(cull: Seq<bool>, f1: int, f2: int) -> bool {
    exists|p: Pos, q: Pos|
        #![trigger on_face(p, f1), on_face(q, f2), linked(cull, p, q)]
        open_cell(cull, p) && open_cell(cull, q) && on_face(p, f1) && on_face(q, f2) && linked(cull, p, q)
}

/// Every block is linked to itself.
pub proof fn lemma_linked_refl(cull: Seq<bool>, p: Pos)
    ensures
        linked(cull, p, p),
{
}

/// Links chain: linked to a block that is linked to a third is linked to the third.
pub proof fn lemma_linked_trans(cull: Seq<bool>, p: Pos, q: Pos, r: Pos)
    requires
        linked(cull, p, q),
        linked(cull, q, r),
    ensures
        linked(cull, p, r),
{
    assert forall|s: Set<Pos>| #[trigger] closed_region(cull, s) && s.contains(p) implies s.contains(r) by {
        assert(s.contains(q));
    }
}

proof fn lemma_neighbour_back(p: Pos, d: int)
    requires
        0 <= d < 6,
    ensures
        0 <= opposite(d) < 6,
        neighbour(neighbour(p, d), opposite(d)) == p,
{
}

/// An open block is linked to each of its open neighbours.
pub proof fn lemma_linked_step(cull: Seq<bool>, p: Pos, d: int)
    requires
        open_cell(cull, p),
        0 <= d < 6,
        open_cell(cull, neighbour(p, d)),
    ensures
        linked(cull, p, neighbour(p, d)),
{
    assert forall|s: Set<Pos>| #[trigger] closed_region(cull, s) && s.contains(p) implies s.contains(neighbour(p, d)) by {
    }
}

/// Reachability through open blocks goes both ways.
pub proof fn lemma_linked_symm(cull: Seq<bool>, p: Pos, q: Pos)
    requires
        linked(cull, p, q),
    ensures
        linked(cull, q, p),
{
    assert forall|s: Set<Pos>| #[trigger] closed_region(cull, s) && s.contains(q) implies s.contains(p) by {
        let c = Set::new(|r: Pos| !s.contains(r));
        assert forall|r: Pos, d: int| #![trigger c.contains(r), neighbour(r, d)]
            c.contains(r) && open_cell(cull, r) && 0 <= d < 6 && open_cell(cull, neighbour(r, d))
            implies c.contains(neighbour(r, d)) by {
            let n = neighbour(r, d);
            lemma_neighbour_back(r, d);
            if s.contains(n) {
                assert(s.contains(neighbour(n, opposite(d))));
            }
        }
        if !s.contains(p) {
            assert(closed_region(cull, c));
            assert(c.contains(p));
            assert(c.contains(q));
        }
    }
}

proof fn lemma_cell_inj(p: Pos, r: Pos)
    requires
        in_section(p),
        in_section(r),
        cell(p) == cell(r),
    ensures
        p == r,
{
}

proof fn lemma_face_bits(p: Pos, f: int)
    requires
        in_section(p),
        0 <= f < 6,
    ensures
        face_bit(face_bits(p), f) == on_face(p, f),
{
    let a: u8 = if p.0 == 0 { 16u8 } else if p.0 == 15 { 32u8 } else { 0u8 };
    let b: u8 = if p.1 == 0 { 2u8 } else if p.1 == 15 { 1u8 } else { 0u8 };
    let c: u8 = if p.2 == 0 { 4u8 } else if p.2 == 15 { 8u8 } else { 0u8 };
    let g = f as u8;
    assert(face_bits(p) == a | b | c);
    assert(g < 6 ==> ((((a | b | c) >> g) & 1 == 1) == (((a >> g) & 1 == 1) || ((b >> g) & 1 == 1) || ((c >> g) & 1 == 1)))) by (bit_vector);
    assert(g < 6 ==> (((16u8 >> g) & 1 == 1) == (g == 4)) && (((32u8 >> g) & 1 == 1) == (g == 5))
        && (((2u8 >> g) & 1 == 1) == (g == 1)) && (((1u8 >> g) & 1 == 1) == (g == 0))
        && (((4u8 >> g) & 1 == 1) == (g == 2)) && (((8u8 >> g) & 1 == 1) == (g == 3))
        && ((0u8 >> g) & 1 == 0)) by (bit_vector);
}

proof fn lemma_or_bits(t: u8, u: u8, f: int)
    requires
        0 <= f < 8,
    ensures
        face_bit(t | u, f) == (face_bit(t, f) || face_bit(u, f)),
{
    let g = f as u8;
    assert(g < 8 ==> ((((t | u) >> g) & 1 == 1) == (((t >> g) & 1 == 1) || ((u >> g) & 1 == 1)))) by (bit_vector);
}

/// Block `p` was marked between `before` and `after`.
pub open spec fn marked_now(before: Seq<bool>, after: Seq<bool>, p: Pos) -> bool {
    in_section(p) && after[cell(p)] && !before[cell(p)]
}

/// Everything marked in `before` is still marked in `after`.
pub open spec fn grows(before: Seq<bool>, after: Seq<bool>) -> bool {
    &&& before.len() == after.len()
    &&& forall|i: int| 0 <= i < before.len() && before[i] ==> after[i]
}

/// The open blocks marked in `v`.
pub open spec fn seen_set(cull: Seq<bool>, v: Seq<bool>) -> Set<Pos> {
    Set::new(|r: Pos| open_cell(cull, r) && v[cell(r)])
}

/// Some open block on face `f1` marked in `v` is linked to some open block
/// on face `f2` marked in `v`.
pub open spec fn pair_seen(cull: Seq<bool>, v: Seq<bool>, f1: int, f2: int) -> bool {
    exists|p: Pos, q: Pos|
        #![trigger on_face(p, f1), on_face(q, f2), linked(cull, p, q), v[cell(p)], v[cell(q)]]
        open_cell(cull, p) && open_cell(cull, q) && v[cell(p)] && v[cell(q)] && on_face(p, f1)
            && on_face(q, f2) && linked(cull, p, q)
}

spec fn in_range(p: Pos) -> bool {
    -1 <= p.0 <= 16 && -1 <= p.1 <= 16 && -1 <= p.2 <= 16
}

spec fn queued(q: Seq<(i32, i32, i32)>, t: Pos) -> bool {
    exists|k: int| 0 <= k < q.len() && #[trigger] ip(q[k]) == t
}

/// The queue after the six neighbours of `p` were added, in direction order.
spec fn push_neighbours(q: Seq<(i32, i32, i32)>, p: (i32, i32, i32)) -> Seq<(i32, i32, i32)> {
    q.push((p.0, (p.1 + 1) as i32, p.2)).push((p.0, (p.1 - 1) as i32, p.2)).push((p.0, p.1, (p.2 - 1) as i32))
        .push((p.0, p.1, (p.2 + 1) as i32)).push(((p.0 - 1) as i32, p.1, p.2)).push(((p.0 + 1) as i32, p.1, p.2))
}

spec fn fill_closed(cull: Seq<bool>, start: Seq<bool>, vis: Seq<bool>, q: Seq<(i32, i32, i32)>) -> bool {
    forall|r: Pos, d: int| #![trigger marked_now(start, vis, r), neighbour(r, d)]
        marked_now(start, vis, r) && open_cell(cull, r) && 0 <= d < 6 && open_cell(cull, neighbour(r, d))
            ==> vis[cell(neighbour(r, d))] || queued(q, neighbour(r, d))
}

spec fn fill_sound(cull: Seq<bool>, start: Seq<bool>, vis: Seq<bool>, q: Seq<(i32, i32, i32)>, seed: Pos) -> bool {
    &&& forall|r: Pos| #[trigger] marked_now(start, vis, r) && open_cell(cull, r) ==> linked(cull, seed, r)
    &&& forall|k: int| #![trigger q[k]] 0 <= k < q.len() && open_cell(cull, ip(q[k])) ==> linked(cull, seed, ip(q[k]))
}

spec fn touched_ok(cull: Seq<bool>, start: Seq<bool>, vis: Seq<bool>, touched: u8) -> bool {
    forall|f: int| 0 <= f < 6 ==> (#[trigger] face_bit(touched, f) <==>
        exists|r: Pos| #[trigger] marked_now(start, vis, r) && open_cell(cull, r) && on_face(r, f))
}

spec fn fill_inv(cull: Seq<bool>, start: Seq<bool>, vis: Seq<bool>, q: Seq<(i32, i32, i32)>, seed: Pos, touched: u8) -> bool {
    &&& cull.len() == 4096
    &&& start.len() >= 4096
    &&& grows(start, vis)
    &&& forall|k: int| #![trigger q[k]] 0 <= k < q.len() ==> in_range(ip(q[k]))
    &&& in_section(seed) ==> vis[cell(seed)] || queued(q, seed)
    &&& fill_closed(cull, start, vis, q)
    &&& fill_sound(cull, start, vis, q, seed)
    &&& touched_ok(cull, start, vis, touched)
}

proof fn lemma_fill_start(cull: Seq<bool>, start: Seq<bool>, seed: (i32, i32, i32))
    requires
        cull.len() == 4096,
        start.len() >= 4096,
        in_range(ip(seed)),
    ensures
        fill_inv(cull, start, start, seq![seed], ip(seed), 0u8),
{
    let q = seq![seed];
    assert(q[0] == seed);
    lemma_linked_refl(cull, ip(seed));
    assert forall|f: int| 0 <= f < 6 implies !#[trigger] face_bit(0u8, f) by {
        let g = f as u8;
        assert((0u8 >> g) & 1 == 0) by (bit_vector);
    }
}

/// Taking from the queue a position that is outside the section, already
/// marked, or a culling block (which gets marked).
proof fn lemma_fill_skip(
    cull: Seq<bool>,
    start: Seq<bool>,
    vis: Seq<bool>,
    vis2: Seq<bool>,
    q: Seq<(i32, i32, i32)>,
    seed: Pos,
    touched: u8,
)
    requires
        fill_inv(cull, start, vis, q, seed, touched),
        q.len() > 0,
        !in_section(ip(q[0])) ==> vis2 == vis,
        in_section(ip(q[0])) ==> vis2 == vis.update(cell(ip(q[0])), true),
        in_section(ip(q[0])) ==> vis[cell(ip(q[0]))] || cull[cell(ip(q[0]))],
    ensures
        fill_inv(cull, start, vis2, q.drop_first(), seed, touched),
{
    let p = ip(q[0]);
    let q1 = q.drop_first();
    assert forall|t: Pos| queued(q, t) && t != p implies queued(q1, t) by {
        let k = choose|k: int| 0 <= k < q.len() && #[trigger] ip(q[k]) == t;
        assert(ip(q1[k - 1]) == t);
    }
    assert forall|r: Pos| in_section(r) && r != p implies vis2[cell(r)] == vis[cell(r)] by {
        if in_section(p) {
            if cell(r) == cell(p) {
                lemma_cell_inj(r, p);
            }
        }
    }
    assert forall|r: Pos| marked_now(start, vis2, r) && open_cell(cull, r) implies #[trigger] marked_now(start, vis, r) by {
        if r == p {
            assert(vis[cell(p)] || cull[cell(p)]);
        }
    }
    assert forall|r: Pos| marked_now(start, vis, r) implies #[trigger] marked_now(start, vis2, r) by {
        if in_section(p) && r != p {
            assert(vis2[cell(r)] == vis[cell(r)]);
        }
    }
    assert(fill_closed(cull, start, vis2, q1)) by {
        assert forall|r: Pos, d: int| #![trigger marked_now(start, vis2, r), neighbour(r, d)]
            marked_now(start, vis2, r) && open_cell(cull, r) && 0 <= d < 6 && open_cell(cull, neighbour(r, d))
            implies vis2[cell(neighbour(r, d))] || queued(q1, neighbour(r, d)) by {
            let n = neighbour(r, d);
            assert(marked_now(start, vis, r));
            assert(vis[cell(n)] || queued(q, n));
            if n == p {
            } else {
                assert(vis2[cell(n)] == vis[cell(n)]);
            }
        }
    }
    assert(fill_sound(cull, start, vis2, q1, seed)) by {
        assert forall|r: Pos| #[trigger] marked_now(start, vis2, r) && open_cell(cull, r) implies linked(cull, seed, r) by {
            assert(marked_now(start, vis, r));
        }
        assert forall|k: int| #![trigger q1[k]] 0 <= k < q1.len() && open_cell(cull, ip(q1[k]))
            implies linked(cull, seed, ip(q1[k])) by {
            assert(q1[k] == q[k + 1]);
        }
    }
    assert(touched_ok(cull, start, vis2, touched)) by {
        assert forall|f: int| 0 <= f < 6 implies (#[trigger] face_bit(touched, f) <==>
            exists|r: Pos| #[trigger] marked_now(start, vis2, r) && open_cell(cull, r) && on_face(r, f)) by {
            if face_bit(touched, f) {
                let r = choose|r: Pos| #[trigger] marked_now(start, vis, r) && open_cell(cull, r) && on_face(r, f);
                assert(marked_now(start, vis2, r));
            }
            if exists|r: Pos| #[trigger] marked_now(start, vis2, r) && open_cell(cull, r) && on_face(r, f) {
                let r = choose|r: Pos| #[trigger] marked_now(start, vis2, r) && open_cell(cull, r) && on_face(r, f);
                assert(marked_now(start, vis, r));
            }
        }
    }
    assert forall|k: int| #![trigger q1[k]] 0 <= k < q1.len() implies in_range(ip(q1[k])) by {
        assert(q1[k] == q[k + 1]);
    }
    assert(grows(start, vis2));
}

/// Taking from the queue an open block: it gets marked, its faces join the
/// touched ones, and its six neighbours join the queue.
proof fn lemma_fill_open(
    cull: Seq<bool>,
    start: Seq<bool>,
    vis: Seq<bool>,
    q: Seq<(i32, i32, i32)>,
    seed: Pos,
    touched: u8,
)
    requires
        fill_inv(cull, start, vis, q, seed, touched),
        q.len() > 0,
        open_cell(cull, ip(q[0])),
        !vis[cell(ip(q[0]))],
    ensures
        fill_inv(
            cull,
            start,
            vis.update(cell(ip(q[0])), true),
            push_neighbours(q.drop_first(), q[0]),
            seed,
            touched | face_bits(ip(q[0])),
        ),
{
    let p = ip(q[0]);
    let vis2 = vis.update(cell(p), true);
    let q1 = q.drop_first();
    let q2 = push_neighbours(q1, q[0]);
    let t2 = touched | face_bits(p);
    let n = q1.len() as int;
    assert(q2.len() == n + 6);
    assert forall|d: int| 0 <= d < 6 implies #[trigger] ip(q2[n + d]) == neighbour(p, d) by {
    }
    assert forall|k: int| 0 <= k < n implies #[trigger] q2[k] == q[k + 1] by {
    }
    assert forall|t: Pos| queued(q, t) && t != p implies queued(q2, t) by {
        let k = choose|k: int| 0 <= k < q.len() && #[trigger] ip(q[k]) == t;
        assert(ip(q2[k - 1]) == t);
    }
    assert forall|r: Pos| in_section(r) && r != p implies vis2[cell(r)] == vis[cell(r)] by {
        if cell(r) == cell(p) {
            lemma_cell_inj(r, p);
        }
    }
    assert forall|r: Pos| #[trigger] marked_now(start, vis2, r) implies r == p || marked_now(start, vis, r) by {
    }
    assert forall|r: Pos| marked_now(start, vis, r) implies #[trigger] marked_now(start, vis2, r) by {
        if r != p {
            assert(vis2[cell(r)] == vis[cell(r)]);
        }
    }
    assert(marked_now(start, vis2, p)) by {
        assert(!start[cell(p)]);
    }
    assert(linked(cull, seed, p)) by {
        assert(open_cell(cull, ip(q[0])));
    }
    assert(fill_closed(cull, start, vis2, q2)) by {
        assert forall|r: Pos, d: int| #![trigger marked_now(start, vis2, r), neighbour(r, d)]
            marked_now(start, vis2, r) && open_cell(cull, r) && 0 <= d < 6 && open_cell(cull, neighbour(r, d))
            implies vis2[cell(neighbour(r, d))] || queued(q2, neighbour(r, d)) by {
            let m = neighbour(r, d);
            if r == p {
                assert(ip(q2[n + d]) == m);
            } else {
                assert(marked_now(start, vis, r));
                assert(vis[cell(m)] || queued(q, m));
                if m != p {
                    assert(vis2[cell(m)] == vis[cell(m)]);
                }
            }
        }
    }
    assert(fill_sound(cull, start, vis2, q2, seed)) by {
        assert forall|r: Pos| #[trigger] marked_now(start, vis2, r) && open_cell(cull, r) implies linked(cull, seed, r) by {
            if r != p {
                assert(marked_now(start, vis, r));
            }
        }
        assert forall|k: int| #![trigger q2[k]] 0 <= k < q2.len() && open_cell(cull, ip(q2[k]))
            implies linked(cull, seed, ip(q2[k])) by {
            if k < n {
                assert(q2[k] == q[k + 1]);
            } else {
                let d = k - n;
                assert(ip(q2[n + d]) == neighbour(p, d));
                lemma_linked_step(cull, p, d);
                lemma_linked_trans(cull, seed, p, neighbour(p, d));
            }
        }
    }
    assert(touched_ok(cull, start, vis2, t2)) by {
        assert forall|f: int| 0 <= f < 6 implies (#[trigger] face_bit(t2, f) <==>
            exists|r: Pos| #[trigger] marked_now(start, vis2, r) && open_cell(cull, r) && on_face(r, f)) by {
            lemma_or_bits(touched, face_bits(p), f);
            lemma_face_bits(p, f);
            if face_bit(touched, f) {
                let r = choose|r: Pos| #[trigger] marked_now(start, vis, r) && open_cell(cull, r) && on_face(r, f);
                assert(marked_now(start, vis2, r));
            }
            if on_face(p, f) {
                assert(marked_now(start, vis2, p) && open_cell(cull, p) && on_face(p, f));
            }
            if exists|r: Pos| #[trigger] marked_now(start, vis2, r) && open_cell(cull, r) && on_face(r, f) {
                let r = choose|r: Pos| #[trigger] marked_now(start, vis2, r) && open_cell(cull, r) && on_face(r, f);
                if r != p {
                    assert(marked_now(start, vis, r));
                }
            }
        }
    }
    assert forall|k: int| #![trigger q2[k]] 0 <= k < q2.len() implies in_range(ip(q2[k])) by {
        if k < n {
            assert(q2[k] == q[k + 1]);
        } else {
            assert(ip(q2[n + (k - n)]) == neighbour(p, k - n));
        }
    }
    assert(in_section(seed) ==> vis2[cell(seed)] || queued(q2, seed)) by {
        if in_section(seed) && seed != p {
            assert(vis2[cell(seed)] == vis[cell(seed)]);
        }
    }
    assert(grows(start, vis2));
}

/// Number of unmarked blocks among the first `n`.
spec fn count_unmarked(v: Seq<bool>, n: nat) -> nat
    decreases n,
{
    if n == 0 {
        0
    } else {
        count_unmarked(v, (n - 1) as nat) + if v[n - 1] { 0nat } else { 1nat }
    }
}

proof fn lemma_count_unmarked_same(a: Seq<bool>, b: Seq<bool>, n: nat)
    requires
        n <= a.len(),
        n <= b.len(),
        forall|i: int| 0 <= i < n ==> a[i] == b[i],
    ensures
        count_unmarked(a, n) == count_unmarked(b, n),
    decreases n,
{
    if n > 0 {
        lemma_count_unmarked_same(a, b, (n - 1) as nat);
    }
}

proof fn lemma_count_unmarked_mark(v: Seq<bool>, n: nat, k: int)
    requires
        0 <= k < n <= v.len(),
        !v[k],
    ensures
        count_unmarked(v.update(k, true), n) + 1 == count_unmarked(v, n),
    decreases n,
{
    if n - 1 == k {
        lemma_count_unmarked_same(v, v.update(k, true), (n - 1) as nat);
    } else {
        lemma_count_unmarked_mark(v, (n - 1) as nat, k);
    }
}

/// Marks in `visited` every block that can be reached from (x, y, z) through
/// open blocks (and was not marked yet), together with the culling blocks at
/// its border, and returns the faces of the section that the reached open
/// blocks lie on. `cull[cell(p)]` tells whether block `p` culls.
fn flood_fill(cull: &[bool], visited: &mut BitSet, x: i32, y: i32, z: i32) -> (touched: u8)
    requires
        cull@.len() == 4096,
        old(visited).spec_capacity() >= 4096,
        -1 <= x <= 16 && -1 <= y <= 16 && -1 <= z <= 16,
    ensures
        final(visited).spec_capacity() == old(visited).spec_capacity(),
        grows(old(visited)@, final(visited)@),
        in_section((x as int, y as int, z as int)) ==> final(visited)@[cell((x as int, y as int, z as int))],
        forall|r: Pos, d: int| #![trigger marked_now(old(visited)@, final(visited)@, r), neighbour(r, d)]
            marked_now(old(visited)@, final(visited)@, r) && open_cell(cull@, r) && 0 <= d < 6
                && open_cell(cull@, neighbour(r, d)) ==> final(visited)@[cell(neighbour(r, d))],
        forall|r: Pos| #[trigger] marked_now(old(visited)@, final(visited)@, r) && open_cell(cull@, r)
            ==> linked(cull@, (x as int, y as int, z as int), r),
        forall|f: int| 0 <= f < 6 ==> (#[trigger] face_bit(touched, f) <==>
            exists|r: Pos| #[trigger] marked_now(old(visited)@, final(visited)@, r) && open_cell(cull@, r) && on_face(r, f)),
{
    let ghost start = visited@;
    let ghost seed = (x as int, y as int, z as int);
    proof {
        visited.lemma_view_len();
    }
    let mut next_position: VecDeque<(i32, i32, i32)> = VecDeque::new();
    next_position.push_back((x, y, z));
    let mut touched: u8 = 0;
    proof {
        assert(next_position@ =~= seq![(x, y, z)]);
        lemma_fill_start(cull@, start, (x, y, z));
    }
    loop
        invariant
            cull@.len() == 4096,
            visited.spec_capacity() == old(visited).spec_capacity(),
            visited@.len() == visited.spec_capacity(),
            start == old(visited)@,
            seed == (x as int, y as int, z as int),
            fill_inv(cull@, start, visited@, next_position@, seed, touched),
        decreases count_unmarked(visited@, 4096), next_position@.len(),
    {
        let ghost q = next_position@;
        let ghost vis = visited@;
        let p = match next_position.pop_front() {
            Some(p) => p,
            None => {
                proof {
                    assert(q.len() == 0);
                    assert forall|t: Pos| !queued(q, t) by {}
                }
                return touched;
            },
        };
        let (px, py, pz) = p;
        proof {
            assert(q[0] == p);
            assert(next_position@ =~= q.drop_first());
            assert(in_range(ip(q[0])));
        }
        if px < 0 || px > 15 || py < 0 || py > 15 || pz < 0 || pz > 15 {
            proof {
                lemma_fill_skip(cull@, start, vis, vis, q, seed, touched);
            }
            continue;
        }
        let idx = (px + pz * 16 + py * 256) as usize;
        proof {
            assert(idx as int == cell(ip(p)));
        }
        if visited.get(idx) {
            proof {
                assert(vis.update(idx as int, true) =~= vis);
                lemma_fill_skip(cull@, start, vis, vis, q, seed, touched);
            }
            continue;
        }
        visited.set(idx, true);
        proof {
            lemma_count_unmarked_mark(vis, 4096, idx as int);
        }
        if cull[idx] {
            proof {
                lemma_fill_skip(cull@, start, vis, visited@, q, seed, touched);
            }
            continue;
        }
        let f: u8 = (if px == 0 { 16u8 } else if px == 15 { 32u8 } else { 0u8 })
            | (if py == 0 { 2u8 } else if py == 15 { 1u8 } else { 0u8 })
            | (if pz == 0 { 4u8 } else if pz == 15 { 8u8 } else { 0u8 });
        proof {
            assert(f == face_bits(ip(p)));
            lemma_fill_open(cull@, start, vis, q, seed, touched);
        }
        touched = touched | f;
        next_position.push_back((px, py + 1, pz));
        next_position.push_back((px, py - 1, pz));
        next_position.push_back((px, py, pz - 1));
        next_position.push_back((px, py, pz + 1));
        next_position.push_back((px - 1, py, pz));
        next_position.push_back((px + 1, py, pz));
        proof {
            assert(next_position@ =~= push_neighbours(q.drop_first(), p));
        }
    }
}


proof fn lemma_after_fill(cull: Seq<bool>, before: Seq<bool>, after: Seq<bool>, seed: Pos, touched: u8)
    requires
        cull.len() == 4096,
        before.len() >= 4096,
        grows(before, after),
        closed_region(cull, seen_set(cull, before)),
        forall|r: Pos, d: int| #![trigger marked_now(before, after, r), neighbour(r, d)]
            marked_now(before, after, r) && open_cell(cull, r) && 0 <= d < 6 && open_cell(cull, neighbour(r, d))
                ==> after[cell(neighbour(r, d))],
        forall|r: Pos| #[trigger] marked_now(before, after, r) && open_cell(cull, r) ==> linked(cull, seed, r),
        forall|f: int| 0 <= f < 6 ==> (#[trigger] face_bit(touched, f) <==>
            exists|r: Pos| #[trigger] marked_now(before, after, r) && open_cell(cull, r) && on_face(r, f)),
    ensures
        closed_region(cull, seen_set(cull, after)),
        forall|f1: int, f2: int| 0 <= f1 < 6 && 0 <= f2 < 6 ==> (#[trigger] pair_seen(cull, after, f1, f2) ==
            (pair_seen(cull, before, f1, f2) || (face_bit(touched, f1) && face_bit(touched, f2)))),
{
    let old_set = seen_set(cull, before);
    let new_set = seen_set(cull, after);
    let fresh = Set::new(|r: Pos| open_cell(cull, r) && marked_now(before, after, r));
    assert forall|p: Pos, d: int| #![trigger new_set.contains(p), neighbour(p, d)]
        new_set.contains(p) && open_cell(cull, p) && 0 <= d < 6 && open_cell(cull, neighbour(p, d))
        implies new_set.contains(neighbour(p, d)) by {
        if before[cell(p)] {
            assert(old_set.contains(p));
            assert(old_set.contains(neighbour(p, d)));
        } else {
            assert(marked_now(before, after, p));
        }
    }
    assert forall|p: Pos, d: int| #![trigger fresh.contains(p), neighbour(p, d)]
        fresh.contains(p) && open_cell(cull, p) && 0 <= d < 6 && open_cell(cull, neighbour(p, d))
        implies fresh.contains(neighbour(p, d)) by {
        let n = neighbour(p, d);
        assert(marked_now(before, after, p));
        assert(after[cell(n)]);
        lemma_neighbour_back(p, d);
        if before[cell(n)] {
            assert(old_set.contains(n));
            assert(old_set.contains(neighbour(n, opposite(d))));
        }
    }
    assert(closed_region(cull, fresh));
    assert forall|f1: int, f2: int| 0 <= f1 < 6 && 0 <= f2 < 6 implies (#[trigger] pair_seen(cull, after, f1, f2) ==
        (pair_seen(cull, before, f1, f2) || (face_bit(touched, f1) && face_bit(touched, f2)))) by {
        if pair_seen(cull, before, f1, f2) {
            let (p, q) = choose|p: Pos, q: Pos|
                #![trigger on_face(p, f1), on_face(q, f2), linked(cull, p, q), before[cell(p)], before[cell(q)]]
                open_cell(cull, p) && open_cell(cull, q) && before[cell(p)] && before[cell(q)] && on_face(p, f1)
                    && on_face(q, f2) && linked(cull, p, q);
            assert(open_cell(cull, p) && open_cell(cull, q) && after[cell(p)] && after[cell(q)] && on_face(p, f1)
                && on_face(q, f2) && linked(cull, p, q));
        }
        if face_bit(touched, f1) && face_bit(touched, f2) {
            let p = choose|r: Pos| #[trigger] marked_now(before, after, r) && open_cell(cull, r) && on_face(r, f1);
            let q = choose|r: Pos| #[trigger] marked_now(before, after, r) && open_cell(cull, r) && on_face(r, f2);
            assert(linked(cull, seed, p));
            assert(linked(cull, seed, q));
            lemma_linked_symm(cull, seed, p);
            lemma_linked_trans(cull, p, seed, q);
            assert(open_cell(cull, p) && open_cell(cull, q) && after[cell(p)] && after[cell(q)] && on_face(p, f1)
                && on_face(q, f2) && linked(cull, p, q));
        }
        if pair_seen(cull, after, f1, f2) {
            let (p, q) = choose|p: Pos, q: Pos|
                #![trigger on_face(p, f1), on_face(q, f2), linked(cull, p, q), after[cell(p)], after[cell(q)]]
                open_cell(cull, p) && open_cell(cull, q) && after[cell(p)] && after[cell(q)] && on_face(p, f1)
                    && on_face(q, f2) && linked(cull, p, q);
            if before[cell(p)] {
                assert(old_set.contains(p));
                assert(old_set.contains(q));
                assert(open_cell(cull, p) && open_cell(cull, q) && before[cell(p)] && before[cell(q)] && on_face(p, f1)
                    && on_face(q, f2) && linked(cull, p, q));
            } else {
                assert(fresh.contains(p));
                assert(fresh.contains(q));
                assert(marked_now(before, after, p) && open_cell(cull, p) && on_face(p, f1));
                assert(marked_now(before, after, q) && open_cell(cull, q) && on_face(q, f2));
            }
        }
    }
}

/// The directions of `Direction::all()`, by index.
proof fn lemma_all_directions(v: Seq<Direction>)
    requires
        v == seq![Direction::Up, Direction::Down, Direction::North, Direction::South, Direction::West, Direction::East],
    ensures
        v.len() == 6,
        forall|k: int| 0 <= k < 6 ==> direction_index(#[trigger] v[k]) == k,
        forall|a: Direction| direction_index(a) < 6,
{
    assert(direction_index(v[0]) == 0);
    assert(direction_index(v[1]) == 1);
    assert(direction_index(v[2]) == 2);
    assert(direction_index(v[3]) == 3);
    assert(direction_index(v[4]) == 4);
    assert(direction_index(v[5]) == 5);
}

proof fn lemma_bit_test(t: u8, g: u8)
    requires
        g < 8,
    ensures
        ((t & (1u8 << g)) != 0) == face_bit(t, g as int),
{
    assert(g < 8 ==> (((t & (1u8 << g)) != 0) == ((t >> g) & 1 == 1))) by (bit_vector);
}

/// Works out which faces of a section can be seen from which: `cull` tells,
/// for each block `p` at index `cell(p)`, whether it blocks the view. Face
/// `b` can be seen from face `a` when an open block on `a` is linked through
/// open blocks to an open block on `b`.
pub fn build_cull_info(cull: &[bool]) -> (info: CullInfo)
    requires
        cull@.len() == 4096,
    ensures
        forall|a: Direction, b: Direction| #[trigger] visible_in(info@, a, b)
            == faces_linked(cull@, direction_index(a) as int, direction_index(b) as int),
{
    let mut visited = BitSet::new(16 * 16 * 16);
    let mut info = CullInfo::new();
    let dirs = Direction::all();
    proof {
        visited.lemma_view_len();
        lemma_all_directions(dirs@);
        assert forall|a: Direction, b: Direction| #[trigger] visible_in(info@, a, b)
            == pair_seen(cull@, visited@, direction_index(a) as int, direction_index(b) as int) by {
            let c = pair_bit(a, b);
            assert(c < 64 ==> (0u64 >> c) & 1 == 0) by (bit_vector);
            assert(!visited@[0]);
        }
        assert(closed_region(cull@, seen_set(cull@, visited@)));
    }
    let mut x: i32 = 0;
    let mut y: i32 = 0;
    let mut z: i32 = 0;
    let mut idx: usize = 0;
    while idx < 4096
        invariant
            cull@.len() == 4096,
            visited.spec_capacity() == 4096 * 64,
            visited@.len() == visited.spec_capacity(),
            dirs@ == seq![Direction::Up, Direction::Down, Direction::North, Direction::South, Direction::West, Direction::East],
            idx == x + 16 * z + 256 * y,
            0 <= x < 16,
            0 <= z < 16,
            0 <= y <= 16,
            idx <= 4096,
            forall|j: int| 0 <= j < idx ==> visited@[j],
            closed_region(cull@, seen_set(cull@, visited@)),
            forall|a: Direction, b: Direction| #[trigger] visible_in(info@, a, b)
                == pair_seen(cull@, visited@, direction_index(a) as int, direction_index(b) as int),
        decreases 4096 - idx,
    {
        if !visited.get(idx) {
            let ghost before = visited@;
            let ghost info0 = info@;
            proof {
                assert(idx as int == cell((x as int, y as int, z as int)));
            }
            let touched = flood_fill(cull, &mut visited, x, y, z);
            proof {
                visited.lemma_view_len();
                lemma_after_fill(cull@, before, visited@, (x as int, y as int, z as int), touched);
                lemma_all_directions(dirs@);
            }
            if touched != 0 {
                let mut i: usize = 0;
                while i < 6
                    invariant
                        dirs@ == seq![Direction::Up, Direction::Down, Direction::North, Direction::South, Direction::West, Direction::East],
                        i <= 6,
                        forall|a: Direction, b: Direction| #[trigger] visible_in(info@, a, b) == (visible_in(info0, a, b)
                            || (direction_index(a) < i && face_bit(touched, direction_index(a) as int)
                                && face_bit(touched, direction_index(b) as int))),
                    decreases 6 - i,
                {
                    proof {
                        lemma_all_directions(dirs@);
                    }
                    let d1 = dirs[i];
                    proof {
                        lemma_bit_test(touched, i as u8);
                    }
                    if (touched & (1u8 << (d1.index() as u8))) != 0 {
                        let ghost info1 = info@;
                        let mut j: usize = 0;
                        while j < 6
                            invariant
                                dirs@ == seq![Direction::Up, Direction::Down, Direction::North, Direction::South, Direction::West, Direction::East],
                                i < 6,
                                j <= 6,
                                direction_index(d1) == i,
                                forall|a: Direction, b: Direction| #[trigger] visible_in(info@, a, b) == (visible_in(info1, a, b)
                                    || (a == d1 && direction_index(b) < j && face_bit(touched, direction_index(b) as int))),
                            decreases 6 - j,
                        {
                            proof {
                                lemma_all_directions(dirs@);
                            }
                            let d2 = dirs[j];
                            proof {
                                lemma_bit_test(touched, j as u8);
                            }
                            if (touched & (1u8 << (d2.index() as u8))) != 0 {
                                info.set_visible(d1, d2);
                            }
                            j = j + 1;
                        }
                    }
                    i = i + 1;
                }
            } else {
                proof {
                    assert forall|f: int| 0 <= f < 6 implies !face_bit(0u8, f) by {
                        let g = f as u8;
                        assert((0u8 >> g) & 1 == 0) by (bit_vector);
                    }
                }
            }
        }
        idx = idx + 1;
        x = x + 1;
        if x == 16 {
            x = 0;
            z = z + 1;
            if z == 16 {
                z = 0;
                y = y + 1;
            }
        }
    }
    proof {
        assert forall|a: Direction, b: Direction| #[trigger] visible_in(info@, a, b)
            == faces_linked(cull@, direction_index(a) as int, direction_index(b) as int) by {
            let f1 = direction_index(a) as int;
            let f2 = direction_index(b) as int;
            if faces_linked(cull@, f1, f2) {
                let (p, q) = choose|p: Pos, q: Pos|
                    #![trigger on_face(p, f1), on_face(q, f2), linked(cull@, p, q)]
                    open_cell(cull@, p) && open_cell(cull@, q) && on_face(p, f1) && on_face(q, f2) && linked(cull@, p, q);
                assert(visited@[cell(p)] && visited@[cell(q)]);
                assert(pair_seen(cull@, visited@, f1, f2));
            }
        }
    }
    info
}


/// Sight through a section goes both ways: face `f2` is linked to face `f1`
/// exactly when `f1` is linked to `f2`, so `build_cull_info` marks (a, b)
/// visible exactly when it marks (b, a).
pub proof fn lemma_faces_linked_symmetric(cull: Seq<bool>, f1: int, f2: int)
    ensures
        faces_linked(cull, f1, f2) == faces_linked(cull, f2, f1),
{
    if faces_linked(cull, f1, f2) {
        let (p, q) = choose|p: Pos, q: Pos|
            #![trigger on_face(p, f1), on_face(q, f2), linked(cull, p, q)]
            open_cell(cull, p) && open_cell(cull, q) && on_face(p, f1) && on_face(q, f2) && linked(cull, p, q);
        lemma_linked_symm(cull, p, q);
        assert(open_cell(cull, q) && open_cell(cull, p) && on_face(q, f2) && on_face(p, f1) && linked(cull, q, p));
    }
    if faces_linked(cull, f2, f1) {
        let (p, q) = choose|p: Pos, q: Pos|
            #![trigger on_face(p, f2), on_face(q, f1), linked(cull, p, q)]
            open_cell(cull, p) && open_cell(cull, q) && on_face(p, f2) && on_face(q, f1) && linked(cull, p, q);
        lemma_linked_symm(cull, p, q);
        assert(open_cell(cull, q) && open_cell(cull, p) && on_face(q, f1) && on_face(p, f2) && linked(cull, q, p));
    }
}

} // verus!
