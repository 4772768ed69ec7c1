use vstd::prelude::*;

verus! {

/// An axis-aligned rectangle of texels.
#[derive(Debug, Clone, Copy, PartialEq, Eq, Structural)]
pub struct Rect {
    pub x: usize,
    pub y: usize,
    pub width: usize,
    pub height: usize,
}

/// Whether two rectangles share a texel.
pub open spec fn overlaps(a: Rect, b: Rect) -> bool {
    &&& a.x < b.x + b.width
    &&& b.x < a.x + a.width
    &&& a.y < b.y + b.height
    &&& b.y < a.y + a.height
}

/// Whether a rectangle lies inside a `width` by `height` area.
pub open spec fn within(r: Rect, width: nat, height: nat) -> bool {
    r.x + r.width <= width && r.y + r.height <= height
}

/// Whether a request of `width` by `height` fits in a free rectangle.
pub open spec fn fits(r: Rect, width: usize, height: usize) -> bool {
    r.width >= width && r.height >= height
}

/// How much of a free rectangle a fitting request leaves unused (smaller is better).
pub open spec fn waste(r: Rect, width: usize, height: usize) -> int {
    (r.width - width) * (r.height - height)
}

/// Whether free rectangle `i` is the one a request picks: it fits, no fitting
/// rectangle wastes less, and every fitting one before it wastes more.
pub open spec fn best_fit(free: Seq<Rect>, i: int, width: usize, height: usize) -> bool {
    &&& 0 <= i < free.len()
    &&& fits(free[i], width, height)
    &&& forall|j: int| 0 <= j < free.len() && fits(#[trigger] free[j], width, height) ==> waste(free[i], width, height) <= waste(free[j], width, height)
    &&& forall|j: int| 0 <= j < i && fits(#[trigger] free[j], width, height) ==> waste(free[i], width, height) < waste(free[j], width, height)
}

/// The free list after a request of `width` by `height` is placed at the
/// top-left corner of free rectangle `i`. When the request spans the whole
/// width of that rectangle, the rectangle loses `height` rows from its top
/// (and goes away when nothing is left). Otherwise the rectangle loses
/// `width` columns from its left, and when it is taller than the request the
/// part below the request, as wide as the request, becomes a new free
/// rectangle at the front of the list.
pub open spec fn cut(free: Seq<Rect>, i: int, width: usize, height: usize) -> Seq<Rect> {
    let t = free[i];
    if width == t.width {
        if t.height == height {
            free.remove(i)
        } else {
            free.update(i, Rect { x: t.x, y: (t.y + height) as usize, width: t.width, height: (t.height - height) as usize })
        }
    } else {
        let right = Rect { x: (t.x + width) as usize, y: t.y, width: (t.width - width) as usize, height: t.height };
        if t.height > height {
            seq![Rect { x: t.x, y: (t.y + height) as usize, width, height: (t.height - height) as usize }]
                + free.update(i, right)
        } else {
            free.update(i, right)
        }
    }
}

/// At most one free rectangle is the best fit for a request.
pub proof fn lemma_best_fit_unique(free: Seq<Rect>, i: int, j: int, width: usize, height: usize)
    requires
        best_fit(free, i, width, height),
        best_fit(free, j, width, height),
    ensures
        i == j,
{
    if i < j {
        assert(waste(free[j], width, height) < waste(free[i], width, height));
        assert(waste(free[i], width, height) <= waste(free[j], width, height));
    } else if j < i {
        assert(waste(free[i], width, height) < waste(free[j], width, height));
        assert(waste(free[j], width, height) <= waste(free[i], width, height));
    }
}

/// Packs rectangles (textures) into a fixed-size area, keeping a list of the
/// free rectangles that remain.
pub struct Atlas {
    free_space: Vec<Rect>,
    /// Width and height of the whole area.
    size: Ghost<(nat, nat)>,
    /// Rectangles handed out so far.
    placed: Ghost<Seq<Rect>>,
}

impl Atlas {
    /// The free rectangles.
    pub closed spec fn free(&self) -> Seq<Rect> {
        self.free_space@
    }

    /// The size of the area.
    pub closed spec fn size(&self) -> (nat, nat) {
        self.size@
    }

    /// The rectangles handed out so far, in order.
    pub closed spec fn placed(&self) -> Seq<Rect> {
        self.placed@
    }

    /// The atlas invariant: free and placed rectangles lie inside the area
    /// and no two of them share a texel; the area's texel count fits a `usize`.
    pub open spec fn wf(&self) -> bool {
        let (w, h) = self.size();
        &&& w <= usize::MAX && h <= usize::MAX
        &&& w * h <= usize::MAX
        &&& forall|i: int| 0 <= i < self.free().len() ==> within(#[trigger] self.free()[i], w, h)
        &&& forall|i: int| 0 <= i < self.placed().len() ==> within(#[trigger] self.placed()[i], w, h)
        &&& forall|i: int, j: int| 0 <= i < self.free().len() && 0 <= j < self.free().len() && i != j
            ==> !overlaps(#[trigger] self.free()[i], #[trigger] self.free()[j])
        &&& forall|i: int, j: int| 0 <= i < self.placed().len() && 0 <= j < self.placed().len() && i != j
            ==> !overlaps(#[trigger] self.placed()[i], #[trigger] self.placed()[j])
        &&& forall|i: int, j: int| 0 <= i < self.free().len() && 0 <= j < self.placed().len()
            ==> !overlaps(#[trigger] self.free()[i], #[trigger] self.placed()[j])
    }

    /// An empty atlas of the given size: the whole area is free.
    pub fn new(width: usize, height: usize) -> (a: Atlas)
        requires
            width * height <= usize::MAX,
        ensures
            a.wf(),
            a.size() == (width as nat, height as nat),
            a.free() == seq![Rect { x: 0, y: 0, width, height }],
            a.placed() == Seq::<Rect>::empty(),
    {
        let mut a = Atlas {
            free_space: Vec::new(),
            size: Ghost((width as nat, height as nat)),
            placed: Ghost(Seq::empty()),
        };
        a.free_space.push(Rect { x: 0, y: 0, width, height });
        proof {
            assert(a.free_space@ =~= seq![Rect { x: 0, y: 0, width, height }]);
        }
        a
    }

    /// Places a `width` by `height` rectangle in the free rectangle that fits
    /// it best (the first of those wasting least), at that rectangle's
    /// top-left corner, and returns it; `None` when no free rectangle fits.
    /// The chosen free rectangle is cut down to what remains.
    pub fn add(&mut self, width: usize, height: usize) -> (r: Option<Rect>)
        requires
            old(self).wf(),
        ensures
            final(self).wf(),
            final(self).size() == old(self).size(),
            r is None <==> forall|j: int| 0 <= j < old(self).free().len() ==> !fits(#[trigger] old(self).free()[j], width, height),
            r is None ==> final(self).free() == old(self).free() && final(self).placed() == old(self).placed(),
            r matches Some(rect) ==> {
                &&& rect.width == width
                &&& rect.height == height
                &&& within(rect, old(self).size().0, old(self).size().1)
                &&& final(self).placed() == old(self).placed().push(rect)
                &&& forall|j: int| 0 <= j < old(self).placed().len() ==> !overlaps(rect, #[trigger] old(self).placed()[j])
                &&& exists|i: int| best_fit(old(self).free(), i, width, height)
                    && old(self).free()[i].x == rect.x && old(self).free()[i].y == rect.y
                    && final(self).free() == cut(old(self).free(), i, width, height)
            },
    {
        let ghost w = self.size@.0;
        let ghost h = self.size@.1;
        let mut priority: usize = usize::MAX;
        let mut target: Option<Rect> = None;
        let mut target_index: usize = 0;
        let mut index: usize = 0;
        while index < self.free_space.len()
            invariant_except_break
                index <= self.free_space@.len(),
                target is None <==> forall|j: int| 0 <= j < index && j < self.free_space@.len() ==> !fits(#[trigger] self.free_space@[j], width, height),
                target matches Some(t) ==> {
                    &&& target_index < self.free_space@.len()
                    &&& target_index < index
                    &&& t == self.free_space@[target_index as int]
                    &&& fits(t, width, height)
                    &&& priority == waste(t, width, height)
                    &&& forall|j: int| 0 <= j < index && j < self.free_space@.len() && fits(#[trigger] self.free_space@[j], width, height)
                        ==> priority <= waste(self.free_space@[j], width, height)
                    &&& forall|j: int| 0 <= j < target_index && fits(#[trigger] self.free_space@[j], width, height)
                        ==> priority < waste(self.free_space@[j], width, height)
                },
            invariant
                self.wf(),
                self.free_space@ == old(self).free_space@,
                self.size == old(self).size,
                self.placed == old(self).placed,
                self.size@ == (w, h),
            ensures
                target is None <==> forall|j: int| 0 <= j < self.free_space@.len() ==> !fits(#[trigger] self.free_space@[j], width, height),
                target matches Some(t) ==> best_fit(self.free_space@, target_index as int, width, height)
                    && t == self.free_space@[target_index as int],
            decreases self.free_space@.len() - index,
        {
            let free = self.free_space[index];
            if free.width >= width && free.height >= height {
                proof {
                    assert(self.free()[index as int] == free);
                    assert(within(free, w, h));
                    assert((free.width - width) * (free.height - height) <= free.width * free.height) by (nonlinear_arith)
                        requires free.width >= width, free.height >= height;
                    assert(free.width * free.height <= w * h) by (nonlinear_arith)
                        requires free.width <= w, free.height <= h;
                }
                let current_priority = (free.width - width) * (free.height - height);
                if target.is_none() || current_priority < priority {
                    target = Some(free);
                    priority = current_priority;
                    target_index = index;
                }
                if priority == 0 {
                    proof {
                        assert forall|j: int| 0 <= j < self.free_space@.len() && fits(#[trigger] self.free_space@[j], width, height)
                            implies priority <= waste(self.free_space@[j], width, height) by {
                            let f = self.free_space@[j];
                            assert((f.width - width) * (f.height - height) >= 0) by (nonlinear_arith)
                                requires f.width >= width, f.height >= height;
                        }
                    }
                    break;
                }
            }
            index = index + 1;
        }
        let mut t = match target {
            Some(t) => t,
            None => return None,
        };
        let ret = Rect { x: t.x, y: t.y, width, height };
        let ghost old_free = self.free_space@;
        let n = self.free_space.len();
        let ghost old_t = t;
        let ghost ti = target_index as int;
        proof {
            assert(within(old_free[ti], w, h));
        }
        if width == t.width {
            t.y = t.y + height;
            t.height = t.height - height;
            if t.height == 0 {
                self.free_space.remove(target_index);
            } else {
                self.free_space.set(target_index, t);
            }
        } else {
            if t.height > height {
                self.free_space.insert(0, Rect { x: t.x, y: t.y + height, width, height: t.height - height });
                target_index = target_index + 1;
            }
            t.x = t.x + width;
            t.width = t.width - width;
            self.free_space.set(target_index, t);
        }
        self.placed = Ghost(self.placed@.push(ret));
        proof {
            assert forall|j: int| 0 <= j < old(self).placed().len() implies !overlaps(ret, #[trigger] old(self).placed()[j]) by {
                assert(!overlaps(old_free[ti], old(self).placed()[j]));
            }
            assert(self.free_space@ == cut(old_free, ti, width, height));
            assert(exists|i: int| best_fit(old(self).free(), i, width, height)
                && old(self).free()[i].x == ret.x && old(self).free()[i].y == ret.y
                && self.free() == cut(old(self).free(), i, width, height));
        }
        Some(ret)
    }
}

} // verus!
