//! What a load of points into an index asks for, and what it checks first.

use vstd::prelude::*;

verus! {

/// What is to be done next.
#[derive(Debug, Clone, Copy, PartialEq, Eq, Structural)]
pub enum LoadAction {
    /// Open a transaction for the points of these positions.
    Begin { from: usize, to: usize },
    /// Insert the points of these positions.
    Insert { from: usize, to: usize },
    /// Get ready to build the index.
    Prepare,
    /// Build the index.
    Build,
    /// Commit the transaction and measure the database.
    Commit,
    /// Nothing more.
    Finish,
}

/// The number of components of the first point.
pub fn dimensions<T>(points: &[(u32, &[T])]) -> (dimensions: usize)
    requires
        points@.len() > 0,
    ensures
        dimensions == points@[0].1@.len(),
{
    points[0].1.len()
}

/// All points have so many components.
pub open spec fn all_fit<T>(points: Seq<(u32, &[T])>, dimensions: usize) -> bool {
    forall|i: int| 0 <= i < points.len() ==> (#[trigger] points[i]).1@.len() == dimensions
}

/// The point at position `p` is the first that has not so many components.
pub open spec fn is_first_misfit<T>(
    points: Seq<(u32, &[T])>,
    dimensions: usize,
    p: int,
) -> bool {
    &&& 0 <= p < points.len()
    &&& points[p].1@.len() != dimensions
    &&& forall|i: int| 0 <= i < p ==> (#[trigger] points[i]).1@.len() == dimensions
}

/// Either all points have so many components, or exactly one of them is the
/// first that has not, and all before it have.
pub proof fn lemma_fit<T>(points: Seq<(u32, &[T])>, dimensions: usize, p: int, q: int)
    ensures
        all_fit(points, dimensions) && 0 <= p < points.len() ==> points[p].1@.len() == dimensions,
        is_first_misfit(points, dimensions, p) ==> {
            &&& 0 <= p < points.len()
            &&& points[p].1@.len() != dimensions
            &&& 0 <= q < p ==> points[q].1@.len() == dimensions
        },
        is_first_misfit(points, dimensions, p) && is_first_misfit(points, dimensions, q) ==> p
            == q,
{
    if is_first_misfit(points, dimensions, p) && is_first_misfit(points, dimensions, q) {
        assert(p < q ==> points[p].1@.len() == dimensions);
        assert(q < p ==> points[q].1@.len() == dimensions);
    }
}

/// The first point that has not so many components, if there is one.
pub fn first_misfit<T>(points: &[(u32, &[T])], dimensions: usize) -> (misfit: Option<usize>)
    ensures
        match misfit {
            None => all_fit(points@, dimensions),
            Some(p) => is_first_misfit(points@, dimensions, p as int),
        },
        match misfit {
            None => forall|i: int|
                0 <= i < points@.len() ==> (#[trigger] points@[i]).1@.len() == dimensions,
            Some(p) => {
                &&& p < points@.len()
                &&& points@[p as int].1@.len() != dimensions
                &&& forall|i: int| 0 <= i < p ==> (#[trigger] points@[i]).1@.len() == dimensions
            },
        },
{
    let mut i: usize = 0;
    while i < points.len()
        invariant
            i <= points@.len(),
            forall|k: int| 0 <= k < i ==> (#[trigger] points@[k]).1@.len() == dimensions,
        decreases points@.len() - i,
    {
        if points[i].1.len() != dimensions {
            return Some(i);
        }
        i += 1;
    }
    None
}

} // verus!
