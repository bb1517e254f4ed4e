//! Packing of rectangles into a texture atlas: a list of free rectangles,
//! of which each request takes the best fit and gives back what is left.

use vstd::prelude::*;

verus! {

#[derive(Debug, Clone, Copy)]
pub struct Rect {
    pub x: usize,
    pub y: usize,
    pub width: usize,
    pub height: usize,
}

/// Whether a `width` by `height` request fits into a free rectangle.
pub open spec fn fits(free: Rect, width: int, height: int) -> bool {
    free.width >= width && free.height >= height
}

/// How badly a request fits a free rectangle that it fits into: the product
/// of what is left over of the width and of the height. Zero is a perfect
/// fit in one direction at least.
pub open spec fn waste(free: Rect, width: int, height: int) -> int {
    (free.width - width) * (free.height - height)
}

/// Whether `index` is where the request goes: the first of the free
/// rectangles that fit it with the least waste.
pub open spec fn is_target(free: Seq<Rect>, width: int, height: int, index: int) -> bool {
    &&& 0 <= index < free.len()
    &&& fits(free[index], width, height)
    &&& forall|j: int|
        0 <= j < free.len() && fits(#[trigger] free[j], width, height) ==> waste(
            free[index],
            width,
            height,
        ) <= waste(free[j], width, height)
    &&& forall|j: int|
        0 <= j < index && fits(#[trigger] free[j], width, height) ==> waste(
            free[index],
            width,
            height,
        ) < waste(free[j], width, height)
}

/// The rectangle that a request gets out of the free rectangle it goes to:
/// the request's size at the free rectangle's corner.
pub open spec fn taken(free: Rect, width: int, height: int) -> Rect {
    Rect { x: free.x, y: free.y, width: width as usize, height: height as usize }
}

/// The free rectangles after a request was taken out of the one at `index`.
///
/// Where the request is as wide as the free rectangle, the part below the
/// request stays, or nothing where there is none. Otherwise the part beside
/// the request stays in place, with the free rectangle's full height, and
/// the part below the request, where there is one, is put in front.
pub open spec fn split(free: Seq<Rect>, width: int, height: int, index: int) -> Seq<Rect> {
    let t = free[index];
    if width == t.width {
        if t.height == height {
            free.remove(index)
        } else {
            free.update(
                index,
                Rect {
                    x: t.x,
                    y: (t.y + height) as usize,
                    width: t.width,
                    height: (t.height - height) as usize,
                },
            )
        }
    } else {
        let beside = Rect {
            x: (t.x + width) as usize,
            y: t.y,
            width: (t.width - width) as usize,
            height: t.height,
        };
        if t.height > height {
            seq![
                Rect {
                    x: t.x,
                    y: (t.y + height) as usize,
                    width: width as usize,
                    height: (t.height - height) as usize,
                },
            ] + free.update(index, beside)
        } else {
            free.update(index, beside)
        }
    }
}

proof fn lemma_waste_not_negative(free: Rect, width: int, height: int)
    requires
        fits(free, width, height),
    ensures
        0 <= waste(free, width, height),
{
    assert(0 <= (free.width - width) * (free.height - height)) by (nonlinear_arith)
        requires
            free.width - width >= 0,
            free.height - height >= 0,
    ;
}

/// Whether a rectangle ends within the range of its coordinates.
pub open spec fn in_range(rect: Rect) -> bool {
    rect.x + rect.width <= usize::MAX && rect.y + rect.height <= usize::MAX
}

/// Whether two rectangles have a point in common. A rectangle without area
/// has no points.
pub open spec fn overlaps(a: Rect, b: Rect) -> bool {
    &&& a.x < b.x + b.width
    &&& b.x < a.x + a.width
    &&& a.y < b.y + b.height
    &&& b.y < a.y + a.height
}

/// Whether a rectangle lies within another.
pub open spec fn within(inner: Rect, outer: Rect) -> bool {
    &&& outer.x <= inner.x
    &&& inner.x + inner.width <= outer.x + outer.width
    &&& outer.y <= inner.y
    &&& inner.y + inner.height <= outer.y + outer.height
}

/// Whether no two of the rectangles overlap, and every one of them ends
/// within the range of its coordinates.
pub open spec fn apart(free: Seq<Rect>) -> bool {
    &&& forall|i: int| 0 <= i < free.len() ==> in_range(#[trigger] free[i])
    &&& forall|i: int, j: int|
        0 <= i < j < free.len() ==> !overlaps(#[trigger] free[i], #[trigger] free[j])
}

/// What a request takes out of the free space is gone from it: the rectangle
/// it gets lies within the free rectangle it went to, no rectangle that is
/// free afterwards overlaps it, every one of those lies within one that was
/// free before, and they still do not overlap each other.
pub proof fn lemma_split_keeps_apart(free: Seq<Rect>, width: int, height: int, index: int)
    requires
        apart(free),
        0 <= index < free.len(),
        fits(free[index], width, height),
        0 <= width,
        0 <= height,
    ensures
        within(taken(free[index], width, height), free[index]),
        apart(split(free, width, height, index)),
        forall|k: int|
            0 <= k < split(free, width, height, index).len() ==> !overlaps(
                #[trigger] split(free, width, height, index)[k],
                taken(free[index], width, height),
            ),
        forall|k: int|
            0 <= k < split(free, width, height, index).len() ==> exists|j: int|
                0 <= j < free.len() && within(
                    #[trigger] split(free, width, height, index)[k],
                    #[trigger] free[j],
                ),
{
    let t = free[index];
    let after = split(free, width, height, index);
    let got = taken(t, width, height);
    assert(in_range(t));
    // Where each rectangle that is free afterwards comes from.
    let source = |k: int|
        if width == t.width {
            if t.height == height && k >= index {
                k + 1
            } else {
                k
            }
        } else if t.height > height {
            if k == 0 {
                index
            } else {
                k - 1
            }
        } else {
            k
        };
    assert forall|k: int| 0 <= k < after.len() implies 0 <= source(k) < free.len() && within(
        #[trigger] after[k],
        free[source(k)],
    ) && !overlaps(after[k], got) && in_range(after[k]) by {
        let j = source(k);
        assert(in_range(free[j]));
        if j != index {
            assert(after[k] == free[j]);
            if j < index {
                assert(!overlaps(free[j], free[index]));
            } else {
                assert(!overlaps(free[index], free[j]));
            }
        }
    }
    assert forall|k: int| 0 <= k < after.len() implies exists|j: int|
        0 <= j < free.len() && within(#[trigger] after[k], #[trigger] free[j]) by {
        assert(within(after[k], free[source(k)]));
    }
    assert forall|a: int, b: int| 0 <= a < b < after.len() implies !overlaps(
        #[trigger] after[a],
        #[trigger] after[b],
    ) by {
        let i = source(a);
        let j = source(b);
        assert(within(after[a], free[i]) && within(after[b], free[j]));
        if i < j {
            assert(!overlaps(free[i], free[j]));
        } else if j < i {
            assert(!overlaps(free[j], free[i]));
        }
    }
}

pub struct Atlas {
    free_space: Vec<Rect>,
}

impl View for Atlas {
    type V = Seq<Rect>;

    /// The free rectangles, in the order in which they are searched.
    closed spec fn view(&self) -> Seq<Rect> {
        self.free_space@
    }
}

impl Atlas {
    /// No two free rectangles overlap, and every one of them ends within
    /// the range of its coordinates.
    pub open spec fn wf(&self) -> bool {
        apart(self@)
    }

    /// An atlas of the given size, all of it free.
    pub fn new(width: usize, height: usize) -> (atlas: Atlas)
        ensures
            atlas.wf(),
            atlas@ == seq![Rect { x: 0, y: 0, width, height }],
    {
        let mut a = Atlas { free_space: Vec::new() };
        a.free_space.push(Rect { x: 0, y: 0, width, height });
        a
    }

    /// Takes a `width` by `height` rectangle out of the free space.
    ///
    /// Where no free rectangle fits the request, there is none. Otherwise
    /// the request goes to the first free rectangle that fits it with the
    /// least waste.
    pub fn add(&mut self, width: usize, height: usize) -> (ret: Option<Rect>)
        requires
            old(self).wf(),
        ensures
            final(self).wf(),
            ret matches Some(rect) ==> forall|k: int|
                0 <= k < final(self)@.len() ==> !overlaps(#[trigger] final(self)@[k], rect),
            match ret {
                None => {
                    &&& forall|i: int|
                        0 <= i < old(self)@.len() ==> !fits(
                            #[trigger] old(self)@[i],
                            width as int,
                            height as int,
                        )
                    &&& final(self)@ == old(self)@
                },
                Some(rect) => exists|index: int|
                    {
                        &&& #[trigger] is_target(old(self)@, width as int, height as int, index)
                        &&& rect == taken(old(self)@[index], width as int, height as int)
                        &&& final(self)@ == split(old(self)@, width as int, height as int, index)
                    },
            },
    {
        let ghost before = self.free_space@;
        let mut priority: u128 = 0;
        let mut target: Option<Rect> = None;
        let mut target_index: usize = 0;
        let mut index: usize = 0;
        // Search through and find the best fit for this texture
        while index < self.free_space.len()
            invariant_except_break
                index <= before.len(),
            invariant
                self.free_space@ == before,
                match target {
                    None => forall|j: int|
                        0 <= j < index ==> !fits(#[trigger] before[j], width as int, height as int),
                    Some(rect) => {
                        &&& target_index <= index
                        &&& target_index < before.len()
                        &&& rect == before[target_index as int]
                        &&& fits(rect, width as int, height as int)
                        &&& priority == waste(rect, width as int, height as int)
                        &&& forall|j: int|
                            0 <= j < index && fits(#[trigger] before[j], width as int, height as int)
                                ==> priority <= waste(before[j], width as int, height as int)
                        &&& forall|j: int|
                            0 <= j < target_index && fits(
                                #[trigger] before[j],
                                width as int,
                                height as int,
                            ) ==> priority < waste(before[j], width as int, height as int)
                    },
                },
            ensures
                target matches Some(_) ==> is_target(
                    before,
                    width as int,
                    height as int,
                    target_index as int,
                ),
                target is None ==> forall|j: int|
                    0 <= j < before.len() ==> !fits(
                        #[trigger] before[j],
                        width as int,
                        height as int,
                    ),
            decreases self.free_space.len() - index,
        {
            let free = self.free_space[index];
            if free.width >= width && free.height >= height {
                let over_width: usize = free.width - width;
                let over_height: usize = free.height - height;
                assert(0 <= over_width * over_height <= u128::MAX) by (nonlinear_arith)
                    requires
                        0 <= over_width <= 0xFFFF_FFFF_FFFF_FFFF,
                        0 <= over_height <= 0xFFFF_FFFF_FFFF_FFFF,
                ;
                let current_priority: u128 = (over_width as u128) * (over_height as u128);
                if target.is_none() || current_priority < priority {
                    target = Some(free);
                    priority = current_priority;
                    target_index = index;
                }
                // Perfect match, we can break early
                if priority == 0 {
                    proof {
                        assert forall|j: int|
                            0 <= j < before.len() && fits(
                                #[trigger] before[j],
                                width as int,
                                height as int,
                            ) implies 0 <= waste(before[j], width as int, height as int) by {
                            lemma_waste_not_negative(before[j], width as int, height as int);
                        }
                    }
                    break ;
                }
            }
            index += 1;
        }
        let mut t = match target {
            Some(t) => t,
            None => {
                return None;
            },
        };
        let ghost found = target_index as int;
        let ret = Rect { x: t.x, y: t.y, width, height };

        if width == t.width {
            t.y += height;
            t.height -= height;
            if t.height == 0 {
                // Remove empty sections
                self.free_space.remove(target_index);
            } else {
                self.free_space[target_index] = t;
            }
        } else {
            if t.height > height {
                // Split by height
                self.free_space.insert(
                    0,
                    Rect { x: t.x, y: t.y + height, width, height: t.height - height },
                );
                assert(target_index < self.free_space.len());
                target_index += 1;
            }
            t.x += width;
            t.width -= width;
            self.free_space[target_index] = t;
        }
        proof {
            assert(self@ =~= split(before, width as int, height as int, found));
            lemma_split_keeps_apart(before, width as int, height as int, found);
        }
        Some(ret)
    }
}

} // verus!
