//! Rectangles and sizes on the pixel grid, and the smallest rectangle that
//! holds a set of rectangles.

use vstd::prelude::*;

verus! {

/// A rectangle, given by its top-left corner, its width and its height.
#[derive(Clone, Copy, Debug, PartialEq, Eq, Structural)]
pub struct IntRect {
    pub x: i32,
    pub y: i32,
    pub w: i32,
    pub h: i32,
}

/// A size, given by its width and its height.
#[derive(Clone, Copy, Debug, PartialEq, Eq, Structural)]
pub struct IntSize {
    pub w: i32,
    pub h: i32,
}

/// An area of the plane between two corners, over the unbounded integers:
/// the points with `left <= x < right` and `top <= y < bottom`.
pub struct Extent {
    pub left: int,
    pub top: int,
    pub right: int,
    pub bottom: int,
}

impl Extent {
    /// Whether `other` lies inside this area.
    pub open spec fn contains(self, other: Extent) -> bool {
        &&& self.left <= other.left
        &&& self.top <= other.top
        &&& other.right <= self.right
        &&& other.bottom <= self.bottom
    }

    /// The smallest area that holds both.
    pub open spec fn join(self, other: Extent) -> Extent {
        Extent {
            left: if self.left <= other.left {
                self.left
            } else {
                other.left
            },
            top: if self.top <= other.top {
                self.top
            } else {
                other.top
            },
            right: if self.right >= other.right {
                self.right
            } else {
                other.right
            },
            bottom: if self.bottom >= other.bottom {
                self.bottom
            } else {
                other.bottom
            },
        }
    }

    /// Whether a rectangle of 32-bit numbers can stand for this area.
    pub open spec fn fits(self) -> bool {
        &&& i32::MIN <= self.left <= i32::MAX
        &&& i32::MIN <= self.top <= i32::MAX
        &&& 0 <= self.right - self.left <= i32::MAX
        &&& 0 <= self.bottom - self.top <= i32::MAX
    }

    /// The rectangle that stands for this area.
    pub open spec fn to_rect(self) -> IntRect {
        IntRect {
            x: self.left as i32,
            y: self.top as i32,
            w: (self.right - self.left) as i32,
            h: (self.bottom - self.top) as i32,
        }
    }
}

/// The smallest area that holds both, where `None` is no area at all.
pub open spec fn join_hulls(a: Option<Extent>, b: Option<Extent>) -> Option<Extent> {
    match (a, b) {
        (None, _) => b,
        (_, None) => a,
        (Some(first), Some(second)) => Some(first.join(second)),
    }
}

/// Whether the hull `outer` holds the hull `inner`.
pub open spec fn hull_contains(outer: Option<Extent>, inner: Option<Extent>) -> bool {
    match (outer, inner) {
        (_, None) => true,
        (None, Some(_)) => false,
        (Some(first), Some(second)) => first.contains(second),
    }
}

/// Whether a rectangle of 32-bit numbers can stand for the hull. No area at
/// all is shown by the invalid rectangle, so it always fits.
pub open spec fn hull_fits(hull: Option<Extent>) -> bool {
    match hull {
        None => true,
        Some(extent) => extent.fits(),
    }
}

/// The rectangle that stands for a hull: the invalid rectangle for no area.
pub open spec fn hull_rect(hull: Option<Extent>) -> IntRect {
    match hull {
        None => IntRect::invalid_spec(),
        Some(extent) => extent.to_rect(),
    }
}

/// The smallest area that holds every valid rectangle of the sequence.
pub open spec fn hull_of(rects: Seq<IntRect>) -> Option<Extent>
    decreases rects.len(),
{
    if rects.len() == 0 {
        None
    } else {
        join_hulls(hull_of(rects.drop_last()), rects.last().hull())
    }
}

impl IntRect {
    /// A rectangle with a width and a height that are not negative.
    pub open spec fn is_valid_spec(self) -> bool {
        self.w >= 0 && self.h >= 0
    }

    /// The rectangle that stands for no area: at the origin, with width and
    /// height -1.
    pub open spec fn invalid_spec() -> IntRect {
        IntRect { x: 0, y: 0, w: -1i32, h: -1i32 }
    }

    /// The area that a valid rectangle covers.
    pub open spec fn extent(self) -> Extent {
        Extent {
            left: self.x as int,
            top: self.y as int,
            right: self.x + self.w,
            bottom: self.y + self.h,
        }
    }

    /// The area of a valid rectangle; an invalid one covers nothing.
    pub open spec fn hull(self) -> Option<Extent> {
        if self.is_valid_spec() {
            Some(self.extent())
        } else {
            None
        }
    }

    /// Whether the two rectangles are valid and share at least one point.
    pub open spec fn intersects_spec(self, other: IntRect) -> bool {
        &&& self.w > 0 && self.h > 0 && other.w > 0 && other.h > 0
        &&& self.x < other.x + other.w
        &&& other.x < self.x + self.w
        &&& self.y < other.y + other.h
        &&& other.y < self.y + self.h
    }

    pub fn new(x: i32, y: i32, w: i32, h: i32) -> (rect: Self)
        ensures
            rect == (IntRect { x, y, w, h }),
    {
        IntRect { x, y, w, h }
    }

    /// The rectangle that stands for no area.
    pub fn invalid() -> (rect: Self)
        ensures
            rect == IntRect::invalid_spec(),
    {
        IntRect { x: 0, y: 0, w: -1, h: -1 }
    }

    /// Whether the width and the height are not negative.
    pub fn is_valid(&self) -> (valid: bool)
        ensures
            valid == self.is_valid_spec(),
    {
        self.w >= 0 && self.h >= 0
    }

    /// Whether the two rectangles share at least one point.
    pub fn intersects(&self, other: &IntRect) -> (shared: bool)
        ensures
            shared == self.intersects_spec(*other),
    {
        self.w > 0 && self.h > 0 && other.w > 0 && other.h > 0 && (self.x as i64) < other.x as i64
            + other.w as i64 && (other.x as i64) < self.x as i64 + self.w as i64 && (self.y as i64)
            < other.y as i64 + other.h as i64 && (other.y as i64) < self.y as i64 + self.h as i64
    }

    pub fn get_x(&self) -> (x: i32)
        ensures
            x == self.x,
    {
        self.x
    }

    pub fn get_y(&self) -> (y: i32)
        ensures
            y == self.y,
    {
        self.y
    }

    pub fn get_w(&self) -> (w: i32)
        ensures
            w == self.w,
    {
        self.w
    }

    pub fn get_h(&self) -> (h: i32)
        ensures
            h == self.h,
    {
        self.h
    }

    pub fn set_x(&mut self, x: i32)
        ensures
            *final(self) == (IntRect { x, ..*old(self) }),
    {
        self.x = x;
    }

    pub fn set_y(&mut self, y: i32)
        ensures
            *final(self) == (IntRect { y, ..*old(self) }),
    {
        self.y = y;
    }

    pub fn set_w(&mut self, w: i32)
        ensures
            *final(self) == (IntRect { w, ..*old(self) }),
    {
        self.w = w;
    }

    pub fn set_h(&mut self, h: i32)
        ensures
            *final(self) == (IntRect { h, ..*old(self) }),
    {
        self.h = h;
    }
}

impl IntSize {
    pub fn new(w: i32, h: i32) -> (size: Self)
        ensures
            size == (IntSize { w, h }),
    {
        IntSize { w, h }
    }

    pub fn get_w(&self) -> (w: i32)
        ensures
            w == self.w,
    {
        self.w
    }

    pub fn get_h(&self) -> (h: i32)
        ensures
            h == self.h,
    {
        self.h
    }

    pub fn set_w(&mut self, w: i32)
        ensures
            *final(self) == (IntSize { w, ..*old(self) }),
    {
        self.w = w;
    }

    pub fn set_h(&mut self, h: i32)
        ensures
            *final(self) == (IntSize { h, ..*old(self) }),
    {
        self.h = h;
    }
}

/// A hull in the making: the corners are kept in 64 bits, so that taking in
/// any rectangle of 32-bit numbers cannot overflow.
#[derive(Clone, Copy, Debug)]
pub struct Span {
    any: bool,
    left: i64,
    top: i64,
    right: i64,
    bottom: i64,
}

impl Span {
    /// The bounds that the corners of a span keep within.
    pub closed spec fn wf(self) -> bool {
        self.any ==> {
            &&& i32::MIN <= self.left <= i32::MAX
            &&& i32::MIN <= self.top <= i32::MAX
            &&& self.left <= self.right <= 2 * (i32::MAX as int)
            &&& self.top <= self.bottom <= 2 * (i32::MAX as int)
        }
    }

    /// The hull that the span has reached.
    pub closed spec fn view(self) -> Option<Extent> {
        if self.any {
            Some(
                Extent {
                    left: self.left as int,
                    top: self.top as int,
                    right: self.right as int,
                    bottom: self.bottom as int,
                },
            )
        } else {
            None
        }
    }

    /// The span of nothing.
    pub fn empty() -> (span: Span)
        ensures
            span.wf(),
            span@ == None::<Extent>,
    {
        Span { any: false, left: 0, top: 0, right: 0, bottom: 0 }
    }

    /// The span widened to hold a valid rectangle; an invalid one changes
    /// nothing.
    pub fn with_rect(&self, rect: &IntRect) -> (span: Span)
        requires
            self.wf(),
        ensures
            span.wf(),
            span@ == join_hulls(self@, rect.hull()),
    {
        if rect.w < 0 || rect.h < 0 {
            return *self;
        }
        let left: i64 = rect.x as i64;
        let top: i64 = rect.y as i64;
        let right: i64 = rect.x as i64 + rect.w as i64;
        let bottom: i64 = rect.y as i64 + rect.h as i64;
        if !self.any {
            Span { any: true, left, top, right, bottom }
        } else {
            Span {
                any: true,
                left: if self.left <= left {
                    self.left
                } else {
                    left
                },
                top: if self.top <= top {
                    self.top
                } else {
                    top
                },
                right: if self.right >= right {
                    self.right
                } else {
                    right
                },
                bottom: if self.bottom >= bottom {
                    self.bottom
                } else {
                    bottom
                },
            }
        }
    }

    /// Whether a rectangle of 32-bit numbers can stand for the span.
    pub fn fits(&self) -> (fits: bool)
        requires
            self.wf(),
        ensures
            fits == hull_fits(self@),
    {
        !self.any || (self.right - self.left <= i32::MAX as i64 && self.bottom - self.top
            <= i32::MAX as i64)
    }

    /// The rectangle that stands for the span.
    pub fn to_rect(&self) -> (rect: IntRect)
        requires
            self.wf(),
            hull_fits(self@),
        ensures
            rect == hull_rect(self@),
    {
        if !self.any {
            IntRect::invalid()
        } else {
            IntRect {
                x: self.left as i32,
                y: self.top as i32,
                w: (self.right - self.left) as i32,
                h: (self.bottom - self.top) as i32,
            }
        }
    }
}

/// Joining hulls is the least upper bound for containment: the join holds
/// both, and whatever holds both holds the join.
pub proof fn lemma_join_is_least_upper_bound(a: Option<Extent>, b: Option<Extent>, c: Option<Extent>)
    ensures
        hull_contains(join_hulls(a, b), a),
        hull_contains(join_hulls(a, b), b),
        hull_contains(c, a) && hull_contains(c, b) ==> hull_contains(c, join_hulls(a, b)),
{
}

/// Containment of hulls is reflexive and transitive, and two hulls that hold
/// each other are the same.
pub proof fn lemma_hull_contains_is_order(a: Option<Extent>, b: Option<Extent>, c: Option<Extent>)
    ensures
        hull_contains(a, a),
        hull_contains(a, b) && hull_contains(b, c) ==> hull_contains(a, c),
        hull_contains(a, b) && hull_contains(b, a) ==> a == b,
{
}

/// A hull inside one that fits, fits too, provided its corners are in order
/// and its left and top are 32-bit numbers, as those of a hull of rectangles are.
pub proof fn lemma_contained_hull_fits(outer: Option<Extent>, inner: Option<Extent>)
    requires
        hull_contains(outer, inner),
        hull_fits(outer),
        inner matches Some(e) ==> e.left <= e.right && e.top <= e.bottom && e.left <= i32::MAX
            && e.top <= i32::MAX,
    ensures
        hull_fits(inner),
{
}

/// The hull of a sequence of rectangles holds each valid one of them, its
/// corners are in order, its left and top are 32-bit numbers, and every hull
/// that holds each of them holds it.
pub proof fn lemma_hull_of_is_least(rects: Seq<IntRect>, bound: Option<Extent>)
    ensures
        forall|i: int| 0 <= i < rects.len() ==> hull_contains(hull_of(rects), #[trigger] rects[i].hull()),
        hull_of(rects) matches Some(e) ==> e.left <= e.right && e.top <= e.bottom && i32::MIN
            <= e.left <= i32::MAX && i32::MIN <= e.top <= i32::MAX,
        (forall|i: int| 0 <= i < rects.len() ==> hull_contains(bound, #[trigger] rects[i].hull()))
            ==> hull_contains(bound, hull_of(rects)),
        hull_of(rects) is None <==> (forall|i: int|
            0 <= i < rects.len() ==> !(#[trigger] rects[i]).is_valid_spec()),
    decreases rects.len(),
{
    if rects.len() > 0 {
        let front = rects.drop_last();
        lemma_hull_of_is_least(front, bound);
        assert forall|i: int| 0 <= i < rects.len() implies hull_contains(
            hull_of(rects),
            #[trigger] rects[i].hull(),
        ) by {
            if i < front.len() {
                assert(front[i] == rects[i]);
                lemma_hull_contains_is_order(hull_of(rects), hull_of(front), rects[i].hull());
            }
        }
        if forall|i: int| 0 <= i < rects.len() ==> hull_contains(bound, #[trigger] rects[i].hull()) {
            assert forall|i: int| 0 <= i < front.len() implies hull_contains(
                bound,
                #[trigger] front[i].hull(),
            ) by {
                assert(front[i] == rects[i]);
            }
            assert(hull_contains(bound, rects[rects.len() - 1].hull()));
        }
        if hull_of(rects) is None {
            assert forall|i: int| 0 <= i < rects.len() implies !(#[trigger] rects[i]).is_valid_spec() by {
                if i < front.len() {
                    assert(front[i] == rects[i]);
                }
            }
        } else {
            if hull_of(front) is Some {
                let i = choose|i: int| 0 <= i < front.len() && (#[trigger] front[i]).is_valid_spec();
                assert(front[i] == rects[i]);
            } else {
                assert(rects[rects.len() - 1].is_valid_spec());
            }
        }
    }
}

} // verus!
