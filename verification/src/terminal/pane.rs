//! Binary tree layout for split panes within a single tab.
//!
//! Each leaf node owns the pane it shows (its terminal state and the process
//! behind it). Internal (split) nodes divide space either horizontally
//! (side-by-side) or vertically (top-bottom) at a ratio given in thousandths
//! of the available space.

use vstd::prelude::*;

verus! {

// ---------------------------------------------------------------------------
// Types
// ---------------------------------------------------------------------------

/// Direction of a pane split.
#[derive(Debug, Clone, Copy, PartialEq, Eq, Structural)]
pub enum SplitDirection {
    /// Side-by-side (left | right).
    Horizontal,
    /// Top / bottom.
    Vertical,
}

/// The ratio of a fresh split: half of the space, in thousandths.
pub const HALF_RATIO: u16 = 500;

/// A node in the binary pane tree.
pub enum PaneNode<P> {
    /// A terminal pane (leaf).
    Leaf { id: usize, pane: P },
    /// An internal split.
    Split {
        direction: SplitDirection,
        /// Position of the divider, in thousandths of the available space.
        ratio: u16,
        first: Box<PaneNode<P>>,
        second: Box<PaneNode<P>>,
    },
}

// ---------------------------------------------------------------------------
// The tree, as mathematics
// ---------------------------------------------------------------------------

impl<P> PaneNode<P> {
    /// The ids of the leaves, in order (first subtree before second).
    pub open spec fn leaf_ids(self) -> Seq<usize>
        decreases self,
    {
        match self {
            PaneNode::Leaf { id, .. } => seq![id],
            PaneNode::Split { first, second, .. } => first.leaf_ids() + second.leaf_ids(),
        }
    }

    /// The first leaf with this id, in order.
    pub open spec fn find_spec(self, id: usize) -> Option<PaneNode<P>>
        decreases self,
    {
        match self {
            PaneNode::Leaf { id: lid, .. } => if lid == id {
                Some(self)
            } else {
                None
            },
            PaneNode::Split { first, second, .. } => match first.find_spec(id) {
                Some(n) => Some(n),
                None => second.find_spec(id),
            },
        }
    }

    /// The tree with the leaf `target` replaced by an even split of it and
    /// `new_leaf`.
    pub open spec fn split_spec(
        self,
        target: usize,
        direction: SplitDirection,
        new_leaf: PaneNode<P>,
    ) -> PaneNode<P>
        decreases self,
    {
        match self {
            PaneNode::Leaf { id, .. } => if id == target {
                PaneNode::Split {
                    direction,
                    ratio: HALF_RATIO,
                    first: Box::new(self),
                    second: Box::new(new_leaf),
                }
            } else {
                self
            },
            PaneNode::Split { direction: d, ratio, first, second } => if first.find_spec(
                target,
            ) is Some {
                PaneNode::Split {
                    direction: d,
                    ratio,
                    first: Box::new(first.split_spec(target, direction, new_leaf)),
                    second,
                }
            } else {
                PaneNode::Split {
                    direction: d,
                    ratio,
                    first,
                    second: Box::new(second.split_spec(target, direction, new_leaf)),
                }
            },
        }
    }

    /// The tree with the first leaf `id` replaced by `new`.
    pub open spec fn replace_spec(self, id: usize, new: PaneNode<P>) -> PaneNode<P>
        decreases self,
    {
        match self {
            PaneNode::Leaf { id: lid, .. } => if lid == id {
                new
            } else {
                self
            },
            PaneNode::Split { direction, ratio, first, second } => if first.find_spec(id) is Some {
                PaneNode::Split {
                    direction,
                    ratio,
                    first: Box::new(first.replace_spec(id, new)),
                    second,
                }
            } else {
                PaneNode::Split {
                    direction,
                    ratio,
                    first,
                    second: Box::new(second.replace_spec(id, new)),
                }
            },
        }
    }

    /// Whether this node is the leaf `id`.
    pub open spec fn is_leaf_with(self, id: usize) -> bool {
        self matches PaneNode::Leaf { id: lid, .. } && lid == id
    }

    /// The tree without the leaf `target`: the split that holds it is
    /// replaced by its other child.
    pub open spec fn remove_spec(self, target: usize) -> PaneNode<P>
        decreases self,
    {
        match self {
            PaneNode::Leaf { .. } => self,
            PaneNode::Split { direction, ratio, first, second } => if first.is_leaf_with(target) {
                *second
            } else if second.is_leaf_with(target) {
                *first
            } else if first.find_spec(target) is Some {
                PaneNode::Split {
                    direction,
                    ratio,
                    first: Box::new(first.remove_spec(target)),
                    second,
                }
            } else if second.find_spec(target) is Some {
                PaneNode::Split {
                    direction,
                    ratio,
                    first,
                    second: Box::new(second.remove_spec(target)),
                }
            } else {
                self
            },
        }
    }
}

/// The first index at or after `k` where `s` holds `x`.
pub open spec fn index_of_from(s: Seq<usize>, x: usize, k: int) -> Option<int>
    decreases s.len() - k,
{
    if k < 0 || k >= s.len() {
        None
    } else if s[k] == x {
        Some(k)
    } else {
        index_of_from(s, x, k + 1)
    }
}

pub open spec fn index_of(s: Seq<usize>, x: usize) -> Option<int> {
    index_of_from(s, x, 0)
}

/// `s` with `y` inserted right after the first `x`.
pub open spec fn insert_after(s: Seq<usize>, x: usize, y: usize) -> Seq<usize> {
    match index_of(s, x) {
        Some(i) => s.take(i + 1).push(y) + s.skip(i + 1),
        None => s,
    }
}

/// `s` without its first `x`.
pub open spec fn remove_first(s: Seq<usize>, x: usize) -> Seq<usize> {
    match index_of(s, x) {
        Some(i) => s.remove(i),
        None => s,
    }
}

// ---------------------------------------------------------------------------
// Lemmas on the tree
// ---------------------------------------------------------------------------

proof fn lemma_index_of_from(s: Seq<usize>, x: usize, k: int)
    requires
        0 <= k,
    ensures
        index_of_from(s, x, k) matches Some(i) ==> k <= i < s.len() && s[i] == x && forall|j: int|
            k <= j < i ==> s[j] != x,
        index_of_from(s, x, k) is None ==> forall|j: int| k <= j < s.len() ==> s[j] != x,
    decreases s.len() - k,
{
    if k < s.len() && s[k] != x {
        lemma_index_of_from(s, x, k + 1);
    }
}

/// The first index of `x` is the one index that holds it and has none
/// before it.
proof fn lemma_index_of_is(s: Seq<usize>, x: usize, i: int)
    requires
        0 <= i < s.len(),
        s[i] == x,
        forall|j: int| 0 <= j < i ==> s[j] != x,
    ensures
        index_of(s, x) == Some(i),
{
    lemma_index_of_from(s, x, 0);
    match index_of(s, x) {
        Some(k) => {
            if k < i {
            } else if k > i {
            }
        },
        None => {},
    }
}

proof fn lemma_index_of_none(s: Seq<usize>, x: usize)
    requires
        !s.contains(x),
    ensures
        index_of(s, x) is None,
{
    lemma_index_of_from(s, x, 0);
    if let Some(i) = index_of(s, x) {
        assert(s.contains(x));
    }
}

/// Where the first `x` of a concatenation lies.
proof fn lemma_index_of_append(a: Seq<usize>, b: Seq<usize>, x: usize)
    ensures
        a.contains(x) ==> index_of(a + b, x) == index_of(a, x),
        !a.contains(x) && b.contains(x) ==> index_of(a + b, x) == Some(
            a.len() + index_of(b, x).unwrap(),
        ),
        !a.contains(x) && !b.contains(x) ==> index_of(a + b, x) is None,
{
    lemma_index_of_from(a, x, 0);
    lemma_index_of_from(b, x, 0);
    if a.contains(x) {
        let i = index_of(a, x).unwrap();
        lemma_index_of_is(a + b, x, i);
    } else if b.contains(x) {
        let i = index_of(b, x).unwrap();
        assert forall|j: int| 0 <= j < a.len() + i implies (a + b)[j] != x by {
            if j < a.len() {
                assert(a.contains(a[j]));
            }
        }
        lemma_index_of_is(a + b, x, a.len() + i);
    } else {
        assert(!(a + b).contains(x)) by {
            if (a + b).contains(x) {
                let j = choose|j: int| 0 <= j < (a + b).len() && (a + b)[j] == x;
                if j < a.len() {
                    assert(a[j] == x);
                } else {
                    assert(b[j - a.len()] == x);
                }
            }
        }
        lemma_index_of_none(a + b, x);
    }
}

impl<P> PaneNode<P> {
    /// The leaf found by id is the leaf of that id, and one is found exactly
    /// when the tree holds the id.
    pub proof fn lemma_find_spec(self, id: usize)
        ensures
            self.find_spec(id) is Some <==> self.leaf_ids().contains(id),
            self.find_spec(id) matches Some(n) ==> n.is_leaf_with(id),
        decreases self,
    {
        match self {
            PaneNode::Leaf { id: lid, .. } => {
                assert(self.leaf_ids()[0] == lid);
                if self.leaf_ids().contains(id) {
                    let k = choose|k: int| 0 <= k < self.leaf_ids().len() && self.leaf_ids()[k] == id;
                    assert(k == 0);
                }
            },
            PaneNode::Split { first, second, .. } => {
                first.lemma_find_spec(id);
                second.lemma_find_spec(id);
                let a = first.leaf_ids();
                let b = second.leaf_ids();
                if (a + b).contains(id) {
                    let k = choose|k: int| 0 <= k < (a + b).len() && (a + b)[k] == id;
                    if k < a.len() {
                        assert(a[k] == id);
                    } else {
                        assert(b[k - a.len()] == id);
                    }
                }
                if a.contains(id) {
                    let k = choose|k: int| 0 <= k < a.len() && a[k] == id;
                    assert((a + b)[k] == id);
                }
                if b.contains(id) {
                    let k = choose|k: int| 0 <= k < b.len() && b[k] == id;
                    assert((a + b)[a.len() + k] == id);
                }
            },
        }
    }

    /// A tree has at least one leaf.
    pub proof fn lemma_leaf_ids_nonempty(self)
        ensures
            self.leaf_ids().len() > 0,
        decreases self,
    {
        if let PaneNode::Split { first, .. } = self {
            first.lemma_leaf_ids_nonempty();
        }
    }
}

impl<P> PaneNode<P> {
    /// The tree holds a split in direction `d` whose first side is the leaf
    /// `a` and whose second side is the leaf `b`.
    pub open spec fn has_split(self, d: SplitDirection, a: usize, b: usize) -> bool
        decreases self,
    {
        match self {
            PaneNode::Leaf { .. } => false,
            PaneNode::Split { direction, first, second, .. } => {
                ||| direction == d && first.is_leaf_with(a) && second.is_leaf_with(b)
                ||| first.has_split(d, a, b)
                ||| second.has_split(d, a, b)
            },
        }
    }

    /// Splitting the pane `target` of a tree that holds it in direction `d`
    /// yields a split in direction `d` of that pane, first, and the new
    /// pane, second.
    pub proof fn lemma_split_direction(self, target: usize, d: SplitDirection, new_id: usize, pane: P)
        requires
            self.leaf_ids().contains(target),
        ensures
            self.split_spec(target, d, PaneNode::Leaf { id: new_id, pane }).has_split(d, target, new_id),
        decreases self,
    {
        self.lemma_find_spec(target);
        match self {
            PaneNode::Leaf { .. } => {},
            PaneNode::Split { first, second, .. } => {
                first.lemma_find_spec(target);
                second.lemma_find_spec(target);
                if first.find_spec(target) is Some {
                    first.lemma_split_direction(target, d, new_id, pane);
                } else {
                    second.lemma_split_direction(target, d, new_id, pane);
                }
            },
        }
    }
}

// ---------------------------------------------------------------------------
// PaneNode helpers
// ---------------------------------------------------------------------------

impl<P> PaneNode<P> {
    /// Returns `true` if this node is a leaf.
    pub fn is_leaf(&self) -> (b: bool)
        ensures
            b == (self is Leaf),
    {
        match self {
            PaneNode::Leaf { .. } => true,
            PaneNode::Split { .. } => false,
        }
    }

    /// Find a leaf by `id` (immutable).
    pub fn find_leaf(&self, id: usize) -> (r: Option<&PaneNode<P>>)
        ensures
            r matches Some(n) ==> self.find_spec(id) == Some(*n),
            r is None ==> self.find_spec(id) is None,
        decreases self,
    {
        match self {
            PaneNode::Leaf { id: lid, .. } => if *lid == id {
                Some(self)
            } else {
                None
            },
            PaneNode::Split { first, second, .. } => match first.find_leaf(id) {
                Some(n) => Some(n),
                None => second.find_leaf(id),
            },
        }
    }

    /// Find a leaf by `id` (mutable).
    pub fn find_leaf_mut(&mut self, id: usize) -> (r: Option<&mut PaneNode<P>>)
        ensures
            old(self).find_spec(id) is None ==> r is None && *final(self) == *old(self),
            old(self).find_spec(id) is Some ==> r is Some && old(self).find_spec(id) == Some(
                *r.unwrap(),
            ) && *final(self) == old(self).replace_spec(id, *final(r.unwrap())),
        decreases *old(self),
    {
        let is_target = match self {
            PaneNode::Leaf { id: lid, .. } => *lid == id,
            PaneNode::Split { .. } => false,
        };
        if is_target {
            return Some(self);
        }
        match self {
            PaneNode::Split { first, second, .. } => {
                if first.find_leaf(id).is_some() {
                    (&mut **first).find_leaf_mut(id)
                } else {
                    (&mut **second).find_leaf_mut(id)
                }
            },
            PaneNode::Leaf { .. } => None,
        }
    }

    /// Collect all leaf IDs via in-order traversal.
    pub fn collect_leaf_ids(&self) -> (ids: Vec<usize>)
        ensures
            ids@ == self.leaf_ids(),
    {
        let mut ids = Vec::new();
        self.collect_leaf_ids_into(&mut ids);
        assert(Seq::<usize>::empty() + self.leaf_ids() =~= self.leaf_ids());
        ids
    }

    fn collect_leaf_ids_into(&self, out: &mut Vec<usize>)
        ensures
            final(out)@ == old(out)@ + self.leaf_ids(),
        decreases self,
    {
        match self {
            PaneNode::Leaf { id, .. } => {
                out.push(*id);
                assert(old(out)@.push(*id) =~= old(out)@ + seq![*id]);
            },
            PaneNode::Split { first, second, .. } => {
                first.collect_leaf_ids_into(out);
                second.collect_leaf_ids_into(out);
                assert(old(out)@ + first.leaf_ids() + second.leaf_ids() =~= old(out)@ + (
                first.leaf_ids() + second.leaf_ids()));
            },
        }
    }
}

/// Whether the node is the leaf `id`.
fn is_leaf_with_exec<P>(node: &PaneNode<P>, id: usize) -> (b: bool)
    ensures
        b == node.is_leaf_with(id),
{
    match node {
        PaneNode::Leaf { id: lid, .. } => *lid == id,
        PaneNode::Split { .. } => false,
    }
}

// ---------------------------------------------------------------------------
// Tree mutation helpers
// ---------------------------------------------------------------------------

/// Find the leaf with `target_id` and replace it with a Split whose first
/// child is the leaf that was there and second child is `new_leaf`.
fn split_node_at<P>(
    node: PaneNode<P>,
    target_id: usize,
    direction: SplitDirection,
    new_leaf: PaneNode<P>,
) -> (r: PaneNode<P>)
    ensures
        r == node.split_spec(target_id, direction, new_leaf),
    decreases node,
{
    match node {
        PaneNode::Leaf { id, pane } => {
            if id == target_id {
                PaneNode::Split {
                    direction,
                    ratio: HALF_RATIO,
                    first: Box::new(PaneNode::Leaf { id, pane }),
                    second: Box::new(new_leaf),
                }
            } else {
                PaneNode::Leaf { id, pane }
            }
        },
        PaneNode::Split { direction: d, ratio, first, second } => {
            // Check which branch holds the target, so `new_leaf` moves once.
            if first.find_leaf(target_id).is_some() {
                let f = split_node_at(*first, target_id, direction, new_leaf);
                PaneNode::Split { direction: d, ratio, first: Box::new(f), second }
            } else {
                let s = split_node_at(*second, target_id, direction, new_leaf);
                PaneNode::Split { direction: d, ratio, first, second: Box::new(s) }
            }
        },
    }
}

/// Remove the leaf with `target_id`.  When found as a direct child of a
/// Split, that Split is replaced by the surviving sibling.
fn remove_leaf_node<P>(node: PaneNode<P>, target_id: usize) -> (r: PaneNode<P>)
    ensures
        r == node.remove_spec(target_id),
    decreases node,
{
    match node {
        PaneNode::Leaf { id, pane } => PaneNode::Leaf { id, pane },
        PaneNode::Split { direction, ratio, first, second } => {
            if is_leaf_with_exec(&*first, target_id) {
                // Replace the whole Split with the `second` child.
                *second
            } else if is_leaf_with_exec(&*second, target_id) {
                *first
            } else if first.find_leaf(target_id).is_some() {
                let f = remove_leaf_node(*first, target_id);
                PaneNode::Split { direction, ratio, first: Box::new(f), second }
            } else if second.find_leaf(target_id).is_some() {
                let s = remove_leaf_node(*second, target_id);
                PaneNode::Split { direction, ratio, first, second: Box::new(s) }
            } else {
                PaneNode::Split { direction, ratio, first, second }
            }
        },
    }
}

/// Splitting a leaf inserts the new leaf's id right after it.
proof fn lemma_split_ids<P>(
    node: PaneNode<P>,
    target: usize,
    direction: SplitDirection,
    new_id: usize,
    pane: P,
)
    requires
        node.leaf_ids().contains(target),
    ensures
        node.split_spec(target, direction, PaneNode::Leaf { id: new_id, pane }).leaf_ids()
            == insert_after(node.leaf_ids(), target, new_id),
    decreases node,
{
    let nl = PaneNode::Leaf { id: new_id, pane };
    match node {
        PaneNode::Leaf { id, .. } => {
            assert(node.leaf_ids()[0] == id);
            assert(id == target) by {
                let k = choose|k: int|
                    0 <= k < node.leaf_ids().len() && node.leaf_ids()[k] == target;
            }
            lemma_index_of_is(node.leaf_ids(), target, 0);
            assert(nl.leaf_ids() == seq![new_id]);
            assert(insert_after(node.leaf_ids(), target, new_id) =~= seq![target, new_id]);
            assert(node.split_spec(target, direction, nl).leaf_ids() =~= seq![id] + seq![new_id]);
        },
        PaneNode::Split { first, second, .. } => {
            let a = first.leaf_ids();
            let b = second.leaf_ids();
            first.lemma_find_spec(target);
            second.lemma_find_spec(target);
            lemma_index_of_append(a, b, target);
            lemma_index_of_from(a, target, 0);
            lemma_index_of_from(b, target, 0);
            if first.find_spec(target) is Some {
                lemma_split_ids(*first, target, direction, new_id, pane);
                let i = index_of(a, target).unwrap();
                assert((a + b).take(i + 1).push(new_id) + (a + b).skip(i + 1) =~= (a.take(i + 1).push(
                    new_id,
                ) + a.skip(i + 1)) + b);
            } else {
                assert(b.contains(target)) by {
                    let k = choose|k: int| 0 <= k < (a + b).len() && (a + b)[k] == target;
                    if k < a.len() {
                        assert(a[k] == target);
                    } else {
                        assert(b[k - a.len()] == target);
                    }
                }
                lemma_split_ids(*second, target, direction, new_id, pane);
                let j = index_of(b, target).unwrap();
                let i = a.len() + j;
                assert((a + b).take(i + 1).push(new_id) + (a + b).skip(i + 1) =~= a + (b.take(
                    j + 1,
                ).push(new_id) + b.skip(j + 1)));
            }
        },
    }
}

/// Parts of a sequence without duplicates have none.
proof fn lemma_no_duplicates_parts(a: Seq<usize>, b: Seq<usize>)
    requires
        (a + b).no_duplicates(),
    ensures
        a.no_duplicates(),
        b.no_duplicates(),
        forall|x: usize| a.contains(x) ==> !b.contains(x),
{
    assert forall|i: int, j: int| 0 <= i < a.len() && 0 <= j < a.len() && i != j implies a[i]
        != a[j] by {
        assert((a + b)[i] == a[i] && (a + b)[j] == a[j]);
    }
    assert forall|i: int, j: int| 0 <= i < b.len() && 0 <= j < b.len() && i != j implies b[i]
        != b[j] by {
        assert((a + b)[a.len() + i] == b[i] && (a + b)[a.len() + j] == b[j]);
    }
    assert forall|x: usize| a.contains(x) implies !b.contains(x) by {
        if b.contains(x) {
            let i = choose|i: int| 0 <= i < a.len() && a[i] == x;
            let j = choose|j: int| 0 <= j < b.len() && b[j] == x;
            assert((a + b)[i] == (a + b)[a.len() + j]);
        }
    }
}

/// Removing a leaf from a split removes its id from the ids in order.
proof fn lemma_remove_ids<P>(node: PaneNode<P>, target: usize)
    requires
        node is Split,
        node.leaf_ids().contains(target),
        node.leaf_ids().no_duplicates(),
    ensures
        node.remove_spec(target).leaf_ids() == remove_first(node.leaf_ids(), target),
    decreases node,
{
    if let PaneNode::Split { first, second, .. } = node {
        let a = first.leaf_ids();
        let b = second.leaf_ids();
        lemma_no_duplicates_parts(a, b);
        first.lemma_find_spec(target);
        second.lemma_find_spec(target);
        lemma_index_of_append(a, b, target);
        lemma_index_of_from(a, target, 0);
        lemma_index_of_from(b, target, 0);
        if first.is_leaf_with(target) {
            assert(a =~= seq![target]);
            assert(a.contains(target)) by {
                assert(a[0] == target);
            }
            lemma_index_of_is(a, target, 0);
            assert((a + b).remove(0) =~= b);
        } else if second.is_leaf_with(target) {
            assert(b =~= seq![target]);
            assert(b.contains(target)) by {
                assert(b[0] == target);
            }
            lemma_index_of_is(b, target, 0);
            assert((a + b).remove(a.len() as int) =~= a);
        } else if first.find_spec(target) is Some {
            assert(*first is Split);
            lemma_remove_ids(*first, target);
            let i = index_of(a, target).unwrap();
            assert((a + b).remove(i) =~= a.remove(i) + b);
        } else {
            assert(b.contains(target)) by {
                let k = choose|k: int| 0 <= k < (a + b).len() && (a + b)[k] == target;
                if k < a.len() {
                    assert(a[k] == target);
                } else {
                    assert(b[k - a.len()] == target);
                }
            }
            assert(*second is Split);
            lemma_remove_ids(*second, target);
            let j = index_of(b, target).unwrap();
            assert((a + b).remove(a.len() + j) =~= a + b.remove(j));
        }
    }
}

// ---------------------------------------------------------------------------
// PaneLayout
// ---------------------------------------------------------------------------

/// The first index of `x` in `ids`, or 0 when it is absent.
pub open spec fn pos_or_zero(ids: Seq<usize>, x: usize) -> int {
    match index_of(ids, x) {
        Some(i) => i,
        None => 0,
    }
}

/// The pane focused after `focus_next`.
pub open spec fn next_focus(ids: Seq<usize>, active: usize) -> usize {
    ids[(pos_or_zero(ids, active) + 1) % (ids.len() as int)]
}

/// The pane focused after `focus_prev`.
pub open spec fn prev_focus(ids: Seq<usize>, active: usize) -> usize {
    let p = pos_or_zero(ids, active);
    if p == 0 {
        ids.last()
    } else {
        ids[p - 1]
    }
}

/// The pane focused after the active one closes: the next one in order, or
/// the one before it when it was the last.
pub open spec fn close_focus(ids: Seq<usize>, active: usize) -> usize {
    let p = pos_or_zero(ids, active);
    if p + 1 < ids.len() {
        ids[p + 1]
    } else if p > 0 {
        ids[p - 1]
    } else {
        ids[0]
    }
}

/// The value of a [`PaneLayout`].
pub struct PaneLayoutView<P> {
    pub root: PaneNode<P>,
    pub active: usize,
    pub next_id: usize,
}

/// A sound layout: every pane id occurs once, the focused pane is one of
/// them, and every id is below the next one to be handed out.
pub open spec fn layout_ok<P>(v: PaneLayoutView<P>) -> bool {
    &&& v.root.leaf_ids().no_duplicates()
    &&& v.root.leaf_ids().contains(v.active)
    &&& forall|i: int| 0 <= i < v.root.leaf_ids().len() ==> #[trigger] v.root.leaf_ids()[i] < v.next_id
}

/// Manages the binary-tree pane layout for a single tab.
pub struct PaneLayout<P> {
    root: Option<PaneNode<P>>,
    active_pane_id: usize,
    next_id: usize,
}

impl<P> View for PaneLayout<P> {
    type V = PaneLayoutView<P>;

    closed spec fn view(&self) -> PaneLayoutView<P> {
        PaneLayoutView {
            root: self.root.unwrap(),
            active: self.active_pane_id,
            next_id: self.next_id,
        }
    }
}

/// The index of the first `x` in `ids`.
fn position_of(ids: &Vec<usize>, x: usize) -> (r: Option<usize>)
    ensures
        r matches Some(i) ==> index_of(ids@, x) == Some(i as int),
        r is None ==> index_of(ids@, x) is None,
{
    let mut i: usize = 0;
    while i < ids.len()
        invariant
            i <= ids@.len(),
            index_of(ids@, x) == index_of_from(ids@, x, i as int),
        decreases ids.len() - i,
    {
        if ids[i] == x {
            return Some(i);
        }
        i += 1;
    }
    None
}

/// A split holds at least two leaves.
proof fn lemma_split_has_two<P>(node: PaneNode<P>)
    requires
        node is Split,
    ensures
        node.leaf_ids().len() >= 2,
{
    if let PaneNode::Split { first, second, .. } = node {
        first.lemma_leaf_ids_nonempty();
        second.lemma_leaf_ids_nonempty();
    }
}

/// Inserting a fresh id keeps a sequence free of duplicates and bounded.
proof fn lemma_insert_after_ok(ids: Seq<usize>, x: usize, y: usize, bound: usize)
    requires
        ids.no_duplicates(),
        ids.contains(x),
        forall|i: int| 0 <= i < ids.len() ==> #[trigger] ids[i] < bound,
        y == bound,
    ensures
        insert_after(ids, x, y).no_duplicates(),
        insert_after(ids, x, y).contains(y),
        insert_after(ids, x, y).len() == ids.len() + 1,
        forall|i: int|
            0 <= i < insert_after(ids, x, y).len() ==> #[trigger] insert_after(ids, x, y)[i] <= bound,
{
    lemma_index_of_from(ids, x, 0);
    let i = index_of(ids, x).unwrap();
    let r = insert_after(ids, x, y);
    assert(r.len() == ids.len() + 1);
    assert forall|k: int| 0 <= k < r.len() implies #[trigger] r[k] == (if k <= i {
        ids[k]
    } else if k == i + 1 {
        y
    } else {
        ids[k - 1]
    }) by {}
    assert(r[i + 1] == y);
    assert forall|a: int, b: int| 0 <= a < r.len() && 0 <= b < r.len() && a != b implies r[a]
        != r[b] by {}
}

/// Removing the element at `i` keeps a sequence free of duplicates.
proof fn lemma_remove_ok(ids: Seq<usize>, i: int, bound: usize)
    requires
        ids.no_duplicates(),
        0 <= i < ids.len(),
        forall|k: int| 0 <= k < ids.len() ==> #[trigger] ids[k] < bound,
    ensures
        ids.remove(i).no_duplicates(),
        forall|k: int| 0 <= k < ids.remove(i).len() ==> #[trigger] ids.remove(i)[k] < bound,
        forall|k: int| 0 <= k < ids.len() && k != i ==> ids.remove(i).contains(#[trigger] ids[k]),
{
    let r = ids.remove(i);
    assert forall|k: int| 0 <= k < r.len() implies #[trigger] r[k] == (if k < i {
        ids[k]
    } else {
        ids[k + 1]
    }) by {}
    assert forall|a: int, b: int| 0 <= a < r.len() && 0 <= b < r.len() && a != b implies r[a]
        != r[b] by {}
    assert forall|k: int| 0 <= k < ids.len() && k != i implies r.contains(#[trigger] ids[k]) by {
        if k < i {
            assert(r[k] == ids[k]);
        } else {
            assert(r[k - 1] == ids[k]);
        }
    }
}

impl<P> PaneLayout<P> {
    /// The layout is sound.
    pub closed spec fn wf(&self) -> bool {
        self.root is Some && layout_ok(self@)
    }

    /// A sound layout's panes each occur once, the focused pane is one of
    /// them, and every id is below the next one to be handed out.
    pub proof fn lemma_wf_layout(&self)
        requires
            self.wf(),
        ensures
            layout_ok(self@),
            self@.root.leaf_ids().no_duplicates(),
            self@.root.leaf_ids().contains(self@.active),
    {
    }

    /// Create a new layout holding a single pane.
    pub fn new(pane: P) -> (l: Self)
        ensures
            l.wf(),
            l@ == (PaneLayoutView { root: PaneNode::Leaf { id: 0, pane }, active: 0, next_id: 1 }),
    {
        let l = Self { root: Some(PaneNode::Leaf { id: 0, pane }), active_pane_id: 0, next_id: 1 };
        assert(l@.root.leaf_ids() == seq![0usize]);
        assert(l@.root.leaf_ids().contains(0)) by {
            assert(l@.root.leaf_ids()[0] == 0);
        }
        l
    }

    /// Split the active pane in the given direction, with the new pane that
    /// was started for it, or the error of starting one.
    ///
    /// The active pane becomes the first child of a new split node; the new
    /// pane becomes the second child and is focused.  Returns the new pane's
    /// ID.  An id is used up either way.
    pub fn split<E>(&mut self, direction: SplitDirection, pane: Result<P, E>) -> (r: Result<usize, E>)
        requires
            old(self).wf(),
            old(self)@.next_id < usize::MAX,
        ensures
            final(self).wf(),
            final(self)@.next_id == old(self)@.next_id + 1,
            r matches Err(e) ==> pane == Err::<P, E>(e) && final(self)@.root == old(self)@.root
                && final(self)@.active == old(self)@.active,
            r matches Ok(id) ==> id == old(self)@.next_id && final(self)@.active == id && (
            pane matches Ok(p) && final(self)@.root == old(self)@.root.split_spec(
                old(self)@.active,
                direction,
                PaneNode::Leaf { id, pane: p },
            )) && final(self)@.root.leaf_ids() == insert_after(
                old(self)@.root.leaf_ids(),
                old(self)@.active,
                id,
            ),
            r matches Ok(id) ==> final(self)@.root.has_split(direction, old(self)@.active, id),
    {
        let new_id = self.next_id;
        self.next_id += 1;
        let pane = match pane {
            Ok(p) => p,
            Err(e) => {
                return Err(e);
            },
        };
        let ghost old_root = self.root.unwrap();
        let target_id = self.active_pane_id;
        let new_leaf = PaneNode::Leaf { id: new_id, pane };
        let root = self.root.take().unwrap();
        self.root = Some(split_node_at(root, target_id, direction, new_leaf));
        self.active_pane_id = new_id;
        proof {
            lemma_split_ids(old_root, target_id, direction, new_id, pane);
            old_root.lemma_split_direction(target_id, direction, new_id, pane);
            lemma_insert_after_ok(old_root.leaf_ids(), target_id, new_id, new_id);
        }
        Ok(new_id)
    }

    /// Close the active pane.  Returns `false` if it was the last pane.
    pub fn close_active(&mut self) -> (closed: bool)
        requires
            old(self).wf(),
        ensures
            final(self).wf(),
            closed == (old(self)@.root is Split),
            !closed ==> final(self)@ == old(self)@,
            closed ==> final(self)@.root == old(self)@.root.remove_spec(old(self)@.active)
                && final(self)@.root.leaf_ids() == remove_first(
                old(self)@.root.leaf_ids(),
                old(self)@.active,
            ) && final(self)@.active == close_focus(
                old(self)@.root.leaf_ids(),
                old(self)@.active,
            ) && final(self)@.next_id == old(self)@.next_id,
    {
        let root = self.root.take().unwrap();
        if root.is_leaf() {
            self.root = Some(root);
            return false;
        }
        let target = self.active_pane_id;
        let ids = root.collect_leaf_ids();
        let ghost old_ids = ids@;
        proof {
            lemma_split_has_two(root);
            lemma_index_of_from(old_ids, target, 0);
        }
        // Pick next focus.
        let pos = match position_of(&ids, target) {
            Some(p) => p,
            None => 0,
        };
        let next_focus = if pos + 1 < ids.len() {
            ids[pos + 1]
        } else if pos > 0 {
            ids[pos - 1]
        } else {
            ids[0]
        };
        let ghost old_root = root;
        self.root = Some(remove_leaf_node(root, target));
        self.active_pane_id = next_focus;
        proof {
            lemma_remove_ids(old_root, target);
            lemma_remove_ok(old_ids, pos as int, self.next_id);
            if pos + 1 < old_ids.len() {
                assert(old_ids[pos + 1] != target);
            } else {
                assert(old_ids[pos - 1] != target);
            }
        }
        true
    }

    /// Get the active leaf (immutable).
    pub fn active_pane(&self) -> (r: Option<&PaneNode<P>>)
        requires
            self.wf(),
        ensures
            r is Some,
            r matches Some(n) ==> self@.root.find_spec(self@.active) == Some(*n)
                && n.is_leaf_with(self@.active),
    {
        proof {
            self@.root.lemma_find_spec(self@.active);
        }
        match &self.root {
            Some(root) => root.find_leaf(self.active_pane_id),
            None => None,
        }
    }

    /// Get the active leaf (mutable).
    pub fn active_pane_mut(&mut self) -> (r: Option<&mut PaneNode<P>>)
        requires
            old(self).wf(),
        ensures
            r is Some,
            old(self)@.root.find_spec(old(self)@.active) == Some(*r.unwrap()),
            final(self)@.root == old(self)@.root.replace_spec(old(self)@.active, *final(r.unwrap())),
            final(self)@.active == old(self)@.active,
            final(self)@.next_id == old(self)@.next_id,
    {
        proof {
            old(self)@.root.lemma_find_spec(old(self)@.active);
        }
        let id = self.active_pane_id;
        match self.root.as_mut() {
            Some(root) => root.find_leaf_mut(id),
            None => None,
        }
    }

    /// Cycle focus to the next pane (in-order).
    pub fn focus_next(&mut self)
        requires
            old(self).wf(),
        ensures
            final(self).wf(),
            final(self)@.root == old(self)@.root,
            final(self)@.next_id == old(self)@.next_id,
            final(self)@.active == next_focus(old(self)@.root.leaf_ids(), old(self)@.active),
    {
        let ids = self.collect_pane_ids();
        proof {
            self@.root.lemma_leaf_ids_nonempty();
            lemma_index_of_from(ids@, self.active_pane_id, 0);
        }
        if ids.len() == 0 {
            return;
        }
        let pos = match position_of(&ids, self.active_pane_id) {
            Some(p) => p,
            None => 0,
        };
        self.active_pane_id = ids[(pos + 1) % ids.len()];
        proof {
            let k = (pos as int + 1) % (ids@.len() as int);
            assert(ids@.contains(ids@[k]));
        }
    }

    /// Cycle focus to the previous pane (in-order).
    pub fn focus_prev(&mut self)
        requires
            old(self).wf(),
        ensures
            final(self).wf(),
            final(self)@.root == old(self)@.root,
            final(self)@.next_id == old(self)@.next_id,
            final(self)@.active == prev_focus(old(self)@.root.leaf_ids(), old(self)@.active),
    {
        let ids = self.collect_pane_ids();
        proof {
            self@.root.lemma_leaf_ids_nonempty();
            lemma_index_of_from(ids@, self.active_pane_id, 0);
        }
        if ids.len() == 0 {
            return;
        }
        let pos = match position_of(&ids, self.active_pane_id) {
            Some(p) => p,
            None => 0,
        };
        if pos == 0 {
            self.active_pane_id = ids[ids.len() - 1];
            proof {
                assert(ids@.contains(ids@[ids@.len() - 1]));
            }
        } else {
            self.active_pane_id = ids[pos - 1];
            proof {
                assert(ids@.contains(ids@[pos - 1]));
            }
        }
    }

    /// Focus the pane with this id, if the layout holds one. Returns whether
    /// it does.
    pub fn focus_pane(&mut self, id: usize) -> (found: bool)
        requires
            old(self).wf(),
        ensures
            final(self).wf(),
            found == old(self)@.root.leaf_ids().contains(id),
            final(self)@.root == old(self)@.root,
            final(self)@.next_id == old(self)@.next_id,
            final(self)@.active == (if found {
                id
            } else {
                old(self)@.active
            }),
    {
        proof {
            self@.root.lemma_find_spec(id);
        }
        let found = match &self.root {
            Some(root) => root.find_leaf(id).is_some(),
            None => false,
        };
        if found {
            self.active_pane_id = id;
        }
        found
    }

    /// Total number of leaf panes.
    pub fn pane_count(&self) -> (n: usize)
        requires
            self.wf(),
        ensures
            n == self@.root.leaf_ids().len(),
    {
        self.collect_pane_ids().len()
    }

    /// All pane IDs in in-order traversal order.
    pub fn collect_pane_ids(&self) -> (ids: Vec<usize>)
        requires
            self.wf(),
        ensures
            ids@ == self@.root.leaf_ids(),
    {
        match &self.root {
            Some(root) => root.collect_leaf_ids(),
            None => Vec::new(),
        }
    }

    /// Get a reference to the root node.
    pub fn root(&self) -> (r: &PaneNode<P>)
        requires
            self.wf(),
        ensures
            *r == self@.root,
    {
        self.root.as_ref().unwrap()
    }

    /// Get the active pane ID.
    pub fn active_pane_id(&self) -> (id: usize)
        ensures
            id == self@.active,
    {
        self.active_pane_id
    }
}

// ---------------------------------------------------------------------------
// Laws
// ---------------------------------------------------------------------------

/// Focusing the previous pane undoes focusing the next one, and the other
/// way round, in a layout whose panes each occur once.
pub proof fn lemma_focus_prev_undoes_next(ids: Seq<usize>, active: usize)
    requires
        ids.no_duplicates(),
        ids.contains(active),
    ensures
        prev_focus(ids, next_focus(ids, active)) == active,
        next_focus(ids, prev_focus(ids, active)) == active,
{
    lemma_index_of_from(ids, active, 0);
    let p = index_of(ids, active).unwrap();
    let n = ids.len() as int;
    let q = (p + 1) % n;
    assert(q == (if p + 1 == n { 0 } else { p + 1 })) by (nonlinear_arith)
        requires
            0 <= p < n,
            q == (p + 1) % n,
    ;
    lemma_index_of_is(ids, ids[q], q);
    let r = if p == 0 { n - 1 } else { p - 1 };
    lemma_index_of_is(ids, ids[r], r);
    assert((r + 1) % n == p) by (nonlinear_arith)
        requires
            0 <= p < n,
            r == (if p == 0 { n - 1 } else { p - 1 }),
    ;
}

/// Splitting adds exactly one pane, and closing a pane of a split layout
/// removes exactly one.
pub proof fn lemma_pane_count_changes(ids: Seq<usize>, active: usize, new_id: usize)
    requires
        ids.no_duplicates(),
        ids.contains(active),
        !ids.contains(new_id),
    ensures
        insert_after(ids, active, new_id).len() == ids.len() + 1,
        insert_after(ids, active, new_id).contains(new_id),
        remove_first(ids, active).len() == ids.len() - 1,
        !remove_first(ids, active).contains(active),
{
    lemma_index_of_from(ids, active, 0);
    let i = index_of(ids, active).unwrap();
    assert(insert_after(ids, active, new_id)[i + 1] == new_id);
    let r = ids.remove(i);
    assert forall|k: int| 0 <= k < r.len() implies r[k] != active by {
        if k < i {
            assert(r[k] == ids[k]);
        } else {
            assert(r[k] == ids[k + 1]);
        }
    }
}

/// Closing the active pane of a layout with several panes, each occurring
/// once: the pane at position `i` is the one removed, the others keep their
/// order, and focus moves to the pane after it, or to the one before it
/// when it was the last, which is still in the layout.
pub proof fn lemma_close_active_order_and_focus(ids: Seq<usize>, i: int)
    requires
        ids.no_duplicates(),
        ids.len() >= 2,
        0 <= i < ids.len(),
    ensures
        remove_first(ids, ids[i]) == ids.take(i) + ids.skip(i + 1),
        !remove_first(ids, ids[i]).contains(ids[i]),
        close_focus(ids, ids[i]) == (if i + 1 < ids.len() {
            ids[i + 1]
        } else {
            ids[i - 1]
        }),
        remove_first(ids, ids[i]).contains(close_focus(ids, ids[i])),
{
    let active = ids[i];
    assert forall|j: int| 0 <= j < i implies ids[j] != active by {
        assert(ids[j] != ids[i]);
    }
    lemma_index_of_is(ids, active, i);
    let r = ids.remove(i);
    assert(r =~= ids.take(i) + ids.skip(i + 1));
    assert forall|k: int| 0 <= k < r.len() implies r[k] != active by {
        if k < i {
            assert(r[k] == ids[k]);
        } else {
            assert(r[k] == ids[k + 1]);
        }
    }
    if i + 1 < ids.len() {
        assert(r[i] == ids[i + 1]);
    } else {
        assert(r[i - 1] == ids[i - 1]);
    }
}

} // verus!
