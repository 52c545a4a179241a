use vstd::prelude::*;

verus! {

/// A 2D point / vector in the section plane, over the coordinate type `T`.
#[derive(Debug, Clone, Copy, PartialEq)]
pub struct Vec2<T> {
    pub x: T,
    pub y: T,
}

impl<T> Vec2<T> {
    /// The point with coordinates `x` and `y`.
    pub fn new(x: T, y: T) -> (v: Self)
        ensures
            v.x == x,
            v.y == y,
    {
        Vec2 { x, y }
    }
}

/// The points of an interleaved coordinate array `[x0, y0, x1, y1, ...]`:
/// point `i` is `(xy[2i], xy[2i + 1])`. A trailing odd coordinate, if any,
/// belongs to no point.
pub fn points_from_interleaved<T: Copy>(xy: &[T]) -> (pts: Vec<Vec2<T>>)
    ensures
        pts@.len() == xy@.len() / 2,
        forall|i: int|
            0 <= i < pts@.len() ==> #[trigger] pts@[i] == (Vec2 { x: xy@[2 * i], y: xy@[2 * i + 1] }),
{
    let len = xy.len();
    let n = len / 2;
    let mut pts: Vec<Vec2<T>> = Vec::new();
    for i in 0..n
        invariant
            len == xy@.len(),
            n == len / 2,
            pts@.len() == i,
            forall|j: int|
                0 <= j < i ==> #[trigger] pts@[j] == (Vec2 { x: xy@[2 * j], y: xy@[2 * j + 1] }),
    {
        assert(2 * i + 1 < xy@.len());
        let at: usize = 2 * i;
        pts.push(Vec2 { x: xy[at], y: xy[at + 1] });
    }
    pts
}

} // verus!
