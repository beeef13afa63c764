//! The quadtree of the `aabb_quadtree` crate, as this library uses it: keyed
//! by boxes whose corners are small whole numbers, so that every coordinate
//! the tree computes with is exact.
//!
//! Nothing in this file is proved. Each contract restates what the crate's
//! source does on the inputs that the contract admits. The tree keeps its
//! boxes as 32-bit floating point numbers and halves its square at most eight
//! times; with corners that are whole numbers up to 65535 every bound that it
//! compares is a multiple of 1/256 below 2^24, which such a number holds
//! exactly.

use vstd::prelude::*;
use aabb_quadtree::geom::{Point, Rect};
use aabb_quadtree::QuadTree;

verus! {

/// A closed box on the grid of the tree.
#[derive(Clone, Copy, Debug, PartialEq, Eq, Structural)]
pub struct GridBox {
    pub x0: u16,
    pub y0: u16,
    pub x1: u16,
    pub y1: u16,
}

impl GridBox {
    /// The box is not inverted.
    pub open spec fn wf(self) -> bool {
        self.x0 <= self.x1 && self.y0 <= self.y1
    }

    /// The two closed boxes share at least one point.
    pub open spec fn touches(self, other: GridBox) -> bool {
        &&& self.x0 <= other.x1
        &&& other.x0 <= self.x1
        &&& self.y0 <= other.y1
        &&& other.y0 <= self.y1
    }
}

/// `aabb_quadtree::QuadTree`, which maps boxes to values. Nothing inside it
/// is visible here; what it holds goes by the two names below.
#[verifier::external_type_specification]
#[verifier::external_body]
#[verifier::reject_recursive_types(T)]
pub struct ExQuadTree<T>(QuadTree<T>);

/// The values that were inserted into the tree, each with its box, in the
/// order of insertion.
pub uninterp spec fn tree_entries(tree: QuadTree<usize>) -> Seq<(usize, GridBox)>;

/// The side of the square `[0, side] x [0, side]` that the tree was made to
/// cover.
pub uninterp spec fn tree_side(tree: QuadTree<usize>) -> u16;

/// The values of those entries whose box touches `query`, in the order of
/// the entries.
pub open spec fn touching_values(entries: Seq<(usize, GridBox)>, query: GridBox) -> Seq<usize>
    decreases entries.len(),
{
    if entries.len() == 0 {
        Seq::empty()
    } else {
        let earlier = touching_values(entries.drop_last(), query);
        if entries.last().1.touches(query) {
            earlier.push(entries.last().0)
        } else {
            earlier
        }
    }
}

/// `QuadTree::default` on the square from the origin to `(side, side)`.
/// The new tree holds nothing. The side must be positive because the tree
/// halves its square when a node fills up and refuses an empty half.
#[verifier::external_body]
pub(crate) fn tree_new(side: u16) -> (tree: QuadTree<usize>)
    requires
        side > 0,
    ensures
        tree_entries(tree) == Seq::<(usize, GridBox)>::empty(),
        tree_side(tree) == side,
{
    QuadTree::default(Rect {
        top_left: Point { x: 0u16.into(), y: 0u16.into() },
        bottom_right: Point { x: side.into(), y: side.into() },
    })
}

/// `QuadTree::insert_with_box`. The tree files a box under every node that
/// the box reaches, and only a box inside the tree's square is sure to reach
/// one; it numbers its items with a 32-bit counter. On such a box, and below
/// that count, the call adds one entry and changes nothing else.
#[verifier::external_body]
pub(crate) fn tree_insert(tree: &mut QuadTree<usize>, value: usize, at: GridBox)
    requires
        at.wf(),
        at.x1 <= tree_side(*old(tree)),
        at.y1 <= tree_side(*old(tree)),
        tree_entries(*old(tree)).len() < u32::MAX,
    ensures
        tree_entries(*final(tree)) == tree_entries(*old(tree)).push((value, at)),
        tree_side(*final(tree)) == tree_side(*old(tree)),
{
    tree.insert_with_box(
        value,
        Rect {
            top_left: Point { x: at.x0.into(), y: at.y0.into() },
            bottom_right: Point { x: at.x1.into(), y: at.y1.into() },
        },
    );
}

/// `QuadTree::query`. The tree collects, from every node that the query box
/// reaches, the items whose box meets the query box, boxes that only touch
/// included; an item inside the tree's square is filed under a node that
/// the query reaches whenever the two boxes meet. It then sorts what it
/// found by item number, which is the order of insertion, drops repeats,
/// and returns the value of each.
#[verifier::external_body]
pub(crate) fn tree_query(tree: &QuadTree<usize>, query: GridBox) -> (hits: Vec<usize>)
    requires
        query.wf(),
    ensures
        hits@ == touching_values(tree_entries(*tree), query),
{
    let found = tree.query(Rect {
        top_left: Point { x: query.x0.into(), y: query.y0.into() },
        bottom_right: Point { x: query.x1.into(), y: query.y1.into() },
    });
    found.into_iter().map(|(value, _, _)| *value).collect()
}

} // verus!
