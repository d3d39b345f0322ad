//! A red-black tree laid out the way the host's C++ `std::map` lays out its
//! nodes, so records inserted here are read correctly by the host.
//!
//! Host nodes live at absolute addresses and point at each other; here a node
//! address is modelled as an index into a table of link rows ([`Tll`]), with
//! the sentinel node at index `0`. The logical content of the tree is carried
//! by an algebraic shape ([`Tree`]) whose nodes are tagged with their row
//! index; the link table is re-derived from the shape after every structural
//! change, exactly as the host expects it: child and parent links, colour
//! bits, and the sentinel's root/minimum/maximum shortcuts.

use vstd::prelude::*;

verus! {

broadcast use vstd::map_lib::group_map_union;

use vstd::map_lib::lemma_union_insert_left;
use vstd::map_lib::lemma_union_insert_right;

/// Result of a three-way comparison of keys.
#[derive(PartialEq, Eq, Structural, Clone, Copy, Debug)]
pub enum Cmp {
    Less,
    Equal,
    Greater,
}

/// A total order on tree keys: the specification-level relation `le`, the
/// laws that make it a total order, and an executable comparison agreeing
/// with it.
pub trait TotalOrder: Sized {
    spec fn le(self, other: Self) -> bool;

    proof fn reflexive(x: Self)
        ensures
            Self::le(x, x),
    ;

    proof fn transitive(x: Self, y: Self, z: Self)
        requires
            Self::le(x, y),
            Self::le(y, z),
        ensures
            Self::le(x, z),
    ;

    proof fn antisymmetric(x: Self, y: Self)
        requires
            Self::le(x, y),
            Self::le(y, x),
        ensures
            x == y,
    ;

    proof fn total(x: Self, y: Self)
        ensures
            Self::le(x, y) || Self::le(y, x),
    ;

    fn compare(&self, other: &Self) -> (c: Cmp)
        ensures
            match c {
                Cmp::Less => self.le(*other) && *self != *other,
                Cmp::Equal => *self == *other,
                Cmp::Greater => other.le(*self) && *self != *other,
            },
    ;
}

/// Strict order derived from a total order.
pub open spec fn lt<T: TotalOrder>(a: T, b: T) -> bool {
    a.le(b) && a != b
}

impl TotalOrder for i32 {
    open spec fn le(self, other: Self) -> bool {
        self <= other
    }

    proof fn reflexive(x: Self) {
    }

    proof fn transitive(x: Self, y: Self, z: Self) {
    }

    proof fn antisymmetric(x: Self, y: Self) {
    }

    proof fn total(x: Self, y: Self) {
    }

    fn compare(&self, other: &Self) -> (c: Cmp) {
        if *self < *other {
            Cmp::Less
        } else if *self == *other {
            Cmp::Equal
        } else {
            Cmp::Greater
        }
    }
}

impl TotalOrder for u64 {
    open spec fn le(self, other: Self) -> bool {
        self <= other
    }

    proof fn reflexive(x: Self) {
    }

    proof fn transitive(x: Self, y: Self, z: Self) {
    }

    proof fn antisymmetric(x: Self, y: Self) {
    }

    proof fn total(x: Self, y: Self) {
    }

    fn compare(&self, other: &Self) -> (c: Cmp) {
        if *self < *other {
            Cmp::Less
        } else if *self == *other {
            Cmp::Equal
        } else {
            Cmp::Greater
        }
    }
}

/// One node row in the host layout: the three links, the colour bit and the
/// sentinel flag. Links are row indices; index `0` is the sentinel, which
/// also stands for an absent child. Key and value of the row are held by the
/// tree shape, not by the row itself.
#[derive(PartialEq, Eq, Structural, Clone, Copy, Debug)]
pub struct Tll {
    /// Left child; for the sentinel, the minimum node of the tree.
    pub left: usize,
    /// Parent; for the sentinel, the root of the tree.
    pub parent: usize,
    /// Right child; for the sentinel, the maximum node of the tree.
    pub right: usize,
    /// Colour bit: true for red.
    pub is_red: bool,
    /// True only for the sentinel row.
    pub is_sentinel: bool,
}

/// The algebraic shape of a tree: every node carries its row index `idx`
/// alongside its colour, key and value.
pub enum Tree<T, U> {
    Leaf,
    Node {
        left: Box<Tree<T, U>>,
        right: Box<Tree<T, U>>,
        red: bool,
        idx: usize,
        key: T,
        val: U,
    },
}

/// A tree description without row indices: what a caller hands over to build
/// a container with a chosen structure and colouring.
pub enum TreeShape<T, U> {
    Leaf,
    Node {
        left: Box<TreeShape<T, U>>,
        red: bool,
        key: T,
        value: U,
        right: Box<TreeShape<T, U>>,
    },
}

/// Row index of the root of `t`; `0` (the sentinel) for an empty tree.
pub open spec fn root_idx<T, U>(t: Tree<T, U>) -> usize {
    match t {
        Tree::Leaf => 0,
        Tree::Node { idx, .. } => idx,
    }
}

/// Is the root of `t` red?
pub open spec fn red<T, U>(t: Tree<T, U>) -> bool {
    match t {
        Tree::Leaf => false,
        Tree::Node { red, .. } => red,
    }
}

/// Is the root of the left child of `t` red?
pub open spec fn lred<T, U>(t: Tree<T, U>) -> bool {
    match t {
        Tree::Leaf => false,
        Tree::Node { left, .. } => red(*left),
    }
}

/// Is the root of the right child of `t` red?
pub open spec fn rred<T, U>(t: Tree<T, U>) -> bool {
    match t {
        Tree::Leaf => false,
        Tree::Node { right, .. } => red(*right),
    }
}

/// Number of nodes in `t`.
pub open spec fn count<T, U>(t: Tree<T, U>) -> nat
    decreases t,
{
    match t {
        Tree::Leaf => 0,
        Tree::Node { left, right, .. } => 1 + count(*left) + count(*right),
    }
}

/// The key-to-row-index map of `t`.
pub open spec fn kmap<T, U>(t: Tree<T, U>) -> Map<T, usize>
    decreases t,
{
    match t {
        Tree::Leaf => Map::empty(),
        Tree::Node { left, right, idx, key, .. } => kmap(*left).union_prefer_right(
            kmap(*right),
        ).insert(key, idx),
    }
}

/// The key-to-value map of `t`.
pub open spec fn tmap<T, U>(t: Tree<T, U>) -> Map<T, U>
    decreases t,
{
    match t {
        Tree::Leaf => Map::empty(),
        Tree::Node { left, right, key, val, .. } => tmap(*left).union_prefer_right(
            tmap(*right),
        ).insert(key, val),
    }
}

/// The set of row indices used by nodes of `t`.
pub open spec fn idxs<T, U>(t: Tree<T, U>) -> Set<usize>
    decreases t,
{
    match t {
        Tree::Leaf => Set::empty(),
        Tree::Node { left, right, idx, .. } => idxs(*left).union(idxs(*right)).insert(idx),
    }
}

/// Every node of `t` has a row index distinct from every other node's.
pub open spec fn uniq<T, U>(t: Tree<T, U>) -> bool
    decreases t,
{
    match t {
        Tree::Leaf => true,
        Tree::Node { left, right, idx, .. } => {
            &&& uniq(*left)
            &&& uniq(*right)
            &&& idxs(*left).disjoint(idxs(*right))
            &&& !idxs(*left).contains(idx)
            &&& !idxs(*right).contains(idx)
        },
    }
}

/// All row indices of `t` lie in `1 .. n`.
pub open spec fn idxs_bounded<T, U>(t: Tree<T, U>, n: int) -> bool {
    forall|i: usize| #[trigger] idxs(t).contains(i) ==> 1 <= i && i < n
}

/// Every row index in `1 .. n` belongs to a node of `t`: the row table has
/// no orphan rows.
pub open spec fn idxs_complete<T, U>(t: Tree<T, U>, n: int) -> bool {
    forall|i: usize| 1 <= i < n ==> #[trigger] idxs(t).contains(i)
}

/// Binary-search-tree ordering: keys in the left subtree are strictly below
/// the node's key, keys in the right subtree strictly above.
pub open spec fn bst<T: TotalOrder, U>(t: Tree<T, U>) -> bool
    decreases t,
{
    match t {
        Tree::Leaf => true,
        Tree::Node { left, right, key, .. } => {
            &&& bst(*left)
            &&& bst(*right)
            &&& (forall|x: T| #[trigger] kmap(*left).dom().contains(x) ==> lt(x, key))
            &&& (forall|x: T| #[trigger] kmap(*right).dom().contains(x) ==> lt(key, x))
        },
    }
}

/// No red node has a red child. The root itself may be red.
pub open spec fn nrr<T, U>(t: Tree<T, U>) -> bool
    decreases t,
{
    match t {
        Tree::Leaf => true,
        Tree::Node { left, right, red, .. } => {
            &&& nrr(*left)
            &&& nrr(*right)
            &&& (red ==> !crate::structs::tll::red(*left) && !crate::structs::tll::red(*right))
        },
    }
}

/// Both child subtrees satisfy [`nrr`]; the only colour violation a tree may
/// have is between its root and one of its children.
pub open spec fn nrr_children<T, U>(t: Tree<T, U>) -> bool {
    match t {
        Tree::Leaf => true,
        Tree::Node { left, right, .. } => nrr(*left) && nrr(*right),
    }
}

/// Black height of `t`: black nodes on a path from the root down to a leaf,
/// the root counted only when black.
pub open spec fn bh<T, U>(t: Tree<T, U>) -> nat
    decreases t,
{
    match t {
        Tree::Leaf => 0,
        Tree::Node { left, red, .. } => bh(*left) + if red {
            0nat
        } else {
            1nat
        },
    }
}

/// Every node's two subtrees have equal black height.
pub open spec fn bh_ok<T, U>(t: Tree<T, U>) -> bool
    decreases t,
{
    match t {
        Tree::Leaf => true,
        Tree::Node { left, right, .. } => {
            &&& bh_ok(*left)
            &&& bh_ok(*right)
            &&& bh(*left) == bh(*right)
        },
    }
}

/// Keys of `t` in symmetric (in-order) sequence.
pub open spec fn key_seq<T, U>(t: Tree<T, U>) -> Seq<T>
    decreases t,
{
    match t {
        Tree::Leaf => Seq::empty(),
        Tree::Node { left, right, key, .. } => key_seq(*left) + seq![key] + key_seq(*right),
    }
}

/// Values of `t` in symmetric (in-order) sequence.
pub open spec fn val_seq<T, U>(t: Tree<T, U>) -> Seq<U>
    decreases t,
{
    match t {
        Tree::Leaf => Seq::empty(),
        Tree::Node { left, right, val, .. } => val_seq(*left) + seq![val] + val_seq(*right),
    }
}

/// Row index of the leftmost node of `t`; `0` for an empty tree.
pub open spec fn min_idx<T, U>(t: Tree<T, U>) -> usize
    decreases t,
{
    match t {
        Tree::Leaf => 0,
        Tree::Node { left, idx, .. } => match *left {
            Tree::Leaf => idx,
            _ => min_idx(*left),
        },
    }
}

/// Row index of the rightmost node of `t`; `0` for an empty tree.
pub open spec fn max_idx<T, U>(t: Tree<T, U>) -> usize
    decreases t,
{
    match t {
        Tree::Leaf => 0,
        Tree::Node { right, idx, .. } => match *right {
            Tree::Leaf => idx,
            _ => max_idx(*right),
        },
    }
}

/// The link rows `s` represent the tree `t` hanging under `parent`: every
/// node's row holds its children's root indices, its parent's index, its
/// colour, and a cleared sentinel flag.
pub open spec fn rep<T, U>(t: Tree<T, U>, s: Seq<Tll>, parent: usize) -> bool
    decreases t,
{
    match t {
        Tree::Leaf => true,
        Tree::Node { left, right, red, idx, .. } => {
            &&& 1 <= idx && idx < s.len()
            &&& s[idx as int] == (Tll {
                left: root_idx(*left),
                parent,
                right: root_idx(*right),
                is_red: red,
                is_sentinel: false,
            })
            &&& rep(*left, s, idx)
            &&& rep(*right, s, idx)
        },
    }
}

/// `rep` only looks at rows whose index is used by the tree.
proof fn lemma_rep_frame<T, U>(t: Tree<T, U>, s1: Seq<Tll>, s2: Seq<Tll>, parent: usize)
    requires
        rep(t, s1, parent),
        s1.len() == s2.len(),
        forall|i: usize| idxs(t).contains(i) ==> s2[i as int] == s1[i as int],
    ensures
        rep(t, s2, parent),
    decreases t,
{
    match t {
        Tree::Leaf => {},
        Tree::Node { left, right, idx, .. } => {
            assert(idxs(t).contains(idx));
            assert(forall|i: usize| idxs(*left).contains(i) ==> idxs(t).contains(i));
            assert(forall|i: usize| idxs(*right).contains(i) ==> idxs(t).contains(i));
            lemma_rep_frame(*left, s1, s2, idx);
            lemma_rep_frame(*right, s1, s2, idx);
        },
    }
}

/// Root of `t`, as an executable check.
fn root_index<T, U>(t: &Tree<T, U>) -> (r: usize)
    ensures
        r == root_idx(*t),
{
    match t {
        Tree::Leaf => 0,
        Tree::Node { idx, .. } => *idx,
    }
}

/// Is the root red, as an executable check.
fn has_red_root<T, U>(t: &Tree<T, U>) -> (r: bool)
    ensures
        r == red(*t),
{
    match t {
        Tree::Leaf => false,
        Tree::Node { red, .. } => *red,
    }
}

/// Is the left child's root red, as an executable check.
fn has_red_left<T, U>(t: &Tree<T, U>) -> (r: bool)
    ensures
        r == lred(*t),
{
    match t {
        Tree::Leaf => false,
        Tree::Node { left, .. } => has_red_root(left),
    }
}

/// Is the right child's root red, as an executable check.
fn has_red_right<T, U>(t: &Tree<T, U>) -> (r: bool)
    ensures
        r == rred(*t),
{
    match t {
        Tree::Leaf => false,
        Tree::Node { right, .. } => has_red_root(right),
    }
}

/// Leftmost row index, as executable code.
fn tree_min_idx<T, U>(t: &Tree<T, U>) -> (r: usize)
    ensures
        r == min_idx(*t),
    decreases *t,
{
    match t {
        Tree::Leaf => 0,
        Tree::Node { left, idx, .. } => match &**left {
            Tree::Leaf => *idx,
            _ => tree_min_idx(left),
        },
    }
}

/// Rightmost row index, as executable code.
fn tree_max_idx<T, U>(t: &Tree<T, U>) -> (r: usize)
    ensures
        r == max_idx(*t),
    decreases *t,
{
    match t {
        Tree::Leaf => 0,
        Tree::Node { right, idx, .. } => match &**right {
            Tree::Leaf => *idx,
            _ => tree_max_idx(right),
        },
    }
}

/// Write the link rows of every node of `t` into `links`, with the root's
/// parent link set to `parent`. Rows not used by `t` are left untouched.
fn encode<T, U>(t: &Tree<T, U>, links: &mut Vec<Tll>, parent: usize)
    requires
        uniq(*t),
        idxs_bounded(*t, old(links).len() as int),
    ensures
        final(links).len() == old(links).len(),
        forall|j: usize|
            j < final(links).len() && !idxs(*t).contains(j) ==> final(links)@[j as int] == old(
                links,
            )@[j as int],
        rep(*t, final(links)@, parent),
    decreases *t,
{
    match t {
        Tree::Leaf => {},
        Tree::Node { left, right, red, idx, .. } => {
            assert(idxs(*t).contains(*idx));
            let row = Tll {
                left: root_index(left),
                parent,
                right: root_index(right),
                is_red: *red,
                is_sentinel: false,
            };
            links[*idx] = row;
            assert(forall|i: usize| idxs(**left).contains(i) ==> idxs(*t).contains(i));
            assert(forall|i: usize| idxs(**right).contains(i) ==> idxs(*t).contains(i));
            let ghost s_mid = links@;
            encode(left, links, *idx);
            let ghost s_after_left = links@;
            encode(right, links, *idx);
            proof {
                // the right-hand pass left the left subtree's rows alone
                assert(forall|i: usize|
                    idxs(**left).contains(i) ==> links@[i as int] == s_after_left[i as int]);
                lemma_rep_frame(**left, s_after_left, links@, *idx);
                assert(links@[*idx as int] == row);
            }
        },
    }
}


/// `t` realises the description `sh`: same structure, colours, keys and
/// values, differing only in that `t`'s nodes carry row indices.
pub open spec fn corresponds<T, U>(t: Tree<T, U>, sh: TreeShape<T, U>) -> bool
    decreases sh,
{
    match sh {
        TreeShape::Leaf => t is Leaf,
        TreeShape::Node { left: sl, red: sred, key: skey, value: sval, right: sr } => match t {
            Tree::Leaf => false,
            Tree::Node { left, right, red, key, val, .. } => {
                &&& corresponds(*left, *sl)
                &&& corresponds(*right, *sr)
                &&& red == sred
                &&& key == skey
                &&& val == sval
            },
        },
    }
}

/// Number of nodes described by `sh`.
pub open spec fn shape_count<T, U>(sh: TreeShape<T, U>) -> nat
    decreases sh,
{
    match sh {
        TreeShape::Leaf => 0,
        TreeShape::Node { left, right, .. } => 1 + shape_count(*left) + shape_count(*right),
    }
}

/// Mirror of the host's map object: the node rows (sentinel at row `0`),
/// the node count, and the algebraic shape the rows represent.
pub struct TllContainer<T, U> {
    /// The algebraic tree carrying keys, values, colours and row indices.
    pub shape: Tree<T, U>,
    /// The host-layout link rows; row `0` is the sentinel.
    pub nodes: Vec<Tll>,
    /// How many items are in the tree.
    pub size: usize,
}

impl<T: TotalOrder, U> TllContainer<T, U> {
    /// The rows, the count and the sentinel row agree with the shape.
    pub open spec fn struct_wf(self) -> bool {
        &&& self.nodes.len() == 1 + count(self.shape)
        &&& uniq(self.shape)
        &&& idxs_bounded(self.shape, self.nodes.len() as int)
        &&& idxs_complete(self.shape, self.nodes.len() as int)
        &&& rep(self.shape, self.nodes@, 0)
        &&& self.nodes@[0] == (Tll {
            left: min_idx(self.shape),
            parent: root_idx(self.shape),
            right: max_idx(self.shape),
            is_red: false,
            is_sentinel: true,
        })
        &&& self.size == count(self.shape)
    }

    /// Keys are ordered as a binary search tree.
    pub open spec fn bst_wf(self) -> bool {
        bst(self.shape)
    }

    /// No red node has a red child (the root itself may still be red), and
    /// every path from a node to a leaf crosses the same number of black
    /// nodes.
    pub open spec fn color_wf(self) -> bool {
        nrr(self.shape) && bh_ok(self.shape)
    }

    /// The full red-black invariant, root colour included.
    pub open spec fn rb_wf(self) -> bool {
        &&& self.struct_wf()
        &&& self.bst_wf()
        &&& self.color_wf()
        &&& !red(self.shape)
    }

    /// The tree as a key-to-value map.
    pub open spec fn view(self) -> Map<T, U> {
        tmap(self.shape)
    }

    /// Keys in symmetric order.
    pub open spec fn spec_key_seq(self) -> Seq<T> {
        key_seq(self.shape)
    }

    /// An empty tree: one sentinel row whose links all point at itself.
    pub fn new() -> (c: Self)
        ensures
            c.rb_wf(),
            c@ == Map::<T, U>::empty(),
            c.size == 0,
            c.nodes@.len() == 1,
    {
        let c = TllContainer {
            shape: Tree::Leaf,
            nodes: vec![
                Tll { left: 0, parent: 0, right: 0, is_red: false, is_sentinel: true },
            ],
            size: 0,
        };
        proof {
            assert(c@ =~= Map::<T, U>::empty());
        }
        c
    }

    /// True when no items are stored.
    pub fn is_empty(&self) -> (r: bool)
        ensures
            r == (self.size == 0),
    {
        self.size == 0
    }

    /// Number of items stored.
    pub fn len(&self) -> (r: usize)
        ensures
            r == self.size,
    {
        self.size
    }

    /// The sentinel row: its parent is the root, its left and right links
    /// are the minimum and maximum nodes.
    pub fn get_sentinel(&self) -> (r: &Tll)
        requires
            self.nodes@.len() >= 1,
        ensures
            *r == self.nodes@[0],
    {
        &self.nodes[0]
    }

    /// The link row at index `i`.
    pub fn node(&self, i: usize) -> (r: Tll)
        requires
            i < self.nodes@.len(),
        ensures
            r == self.nodes@[i as int],
    {
        self.nodes[i]
    }

    /// Rewrite the sentinel row from the shape: parent link to the root,
    /// left link to the minimum node, right link to the maximum node.
    fn update_sentinel_min_max(&mut self)
        requires
            old(self).nodes@.len() >= 1,
        ensures
            final(self).nodes@ == old(self).nodes@.update(
                0,
                Tll {
                    left: min_idx(old(self).shape),
                    parent: root_idx(old(self).shape),
                    right: max_idx(old(self).shape),
                    is_red: false,
                    is_sentinel: true,
                },
            ),
            final(self).shape == old(self).shape,
            final(self).size == old(self).size,
    {
        let mn = tree_min_idx(&self.shape);
        let mx = tree_max_idx(&self.shape);
        let rt = root_index(&self.shape);
        self.nodes[0] = Tll { left: mn, parent: rt, right: mx, is_red: false, is_sentinel: true };
    }

    /// Assign row indices `next, next + 1, ...` to the nodes of `sh` in
    /// preorder and build the corresponding tagged tree.
    fn build_shape(sh: TreeShape<T, U>, next: usize) -> (res: (Tree<T, U>, usize))
        requires
            1 <= next,
            next + shape_count(sh) <= usize::MAX,
        ensures
            res.1 == next + shape_count(sh),
            corresponds(res.0, sh),
            count(res.0) == shape_count(sh),
            uniq(res.0),
            forall|i: usize| idxs(res.0).contains(i) <==> next <= i < res.1,
        decreases sh,
    {
        match sh {
            TreeShape::Leaf => (Tree::Leaf, next),
            TreeShape::Node { left, red, key, value, right } => {
                let (l, n1) = Self::build_shape(*left, next + 1);
                let (r, n2) = Self::build_shape(*right, n1);
                let t = Tree::Node {
                    left: Box::new(l),
                    right: Box::new(r),
                    red,
                    idx: next,
                    key,
                    val: value,
                };
                proof {
                    assert forall|i: usize| idxs(t).contains(i) implies next <= i < n2 by {
                        if idxs(l).contains(i) {
                        } else if idxs(r).contains(i) {
                        } else {
                            assert(i == next);
                        }
                    }
                    assert forall|i: usize| next <= i < n2 implies idxs(t).contains(i) by {
                        if i == next {
                        } else if i < n1 {
                            assert(idxs(l).contains(i));
                        } else {
                            assert(idxs(r).contains(i));
                        }
                    }
                }
                (t, n2)
            },
        }
    }

    /// Build a container realising the given tree description: rows are
    /// allocated, linked and coloured exactly as described. The description
    /// is not required to be ordered or balanced; what the built tree
    /// satisfies is stated by [`corresponds`].
    pub fn from_tree(sh: TreeShape<T, U>) -> (c: Self)
        requires
            shape_count(sh) + 1 <= usize::MAX,
        ensures
            c.struct_wf(),
            corresponds(c.shape, sh),
            c.size == shape_count(sh),
    {
        let (shape, n) = Self::build_shape(sh, 1);
        let mut nodes: Vec<Tll> = Vec::new();
        let mut i: usize = 0;
        while i < n
            invariant
                nodes@.len() == i,
                i <= n,
            decreases n - i,
        {
            nodes.push(Tll { left: 0, parent: 0, right: 0, is_red: false, is_sentinel: false });
            i = i + 1;
        }
        encode(&shape, &mut nodes, 0);
        let mut c = TllContainer { shape, nodes, size: n - 1 };
        let ghost s_pre = c.nodes@;
        c.update_sentinel_min_max();
        proof {
            assert forall|i: usize| idxs(c.shape).contains(i) implies c.nodes@[i as int]
                == s_pre[i as int] by {
                assert(1 <= i < c.nodes@.len());
            }
            lemma_rep_frame(c.shape, s_pre, c.nodes@, 0);
        }
        c
    }
}


/// Same nodes, colours, keys and row indices; only values may differ.
pub open spec fn same_struct<T, U>(a: Tree<T, U>, b: Tree<T, U>) -> bool
    decreases a,
{
    match a {
        Tree::Leaf => b is Leaf,
        Tree::Node { left: al, right: ar, red: ared, idx: ai, key: ak, .. } => match b {
            Tree::Leaf => false,
            Tree::Node { left: bl, right: br, red: bred, idx: bi, key: bk, .. } => {
                &&& same_struct(*al, *bl)
                &&& same_struct(*ar, *br)
                &&& ared == bred
                &&& ai == bi
                &&& ak == bk
            },
        },
    }
}

/// Two keys each strictly below the other would have to be equal: calling
/// this under `lt` both ways refutes the situation.
proof fn lemma_lt_asym<T: TotalOrder>(a: T, b: T)
    requires
        a.le(b),
        b.le(a),
    ensures
        a == b,
{
    T::antisymmetric(a, b);
}

/// Strict order is transitive.
proof fn lemma_lt_trans<T: TotalOrder>(a: T, b: T, c: T)
    requires
        lt(a, b),
        lt(b, c),
    ensures
        lt(a, c),
{
    T::transitive(a, b, c);
    if a == c {
        T::antisymmetric(b, c);
    }
}

/// The key-to-index and key-to-value maps of a tree have the same domain.
pub proof fn lemma_doms_eq<T, U>(t: Tree<T, U>)
    ensures
        kmap(t).dom() == tmap(t).dom(),
    decreases t,
{
    match t {
        Tree::Leaf => {
            assert(kmap(t).dom() =~= tmap(t).dom());
        },
        Tree::Node { left, right, .. } => {
            lemma_doms_eq(*left);
            lemma_doms_eq(*right);
            assert(kmap(t).dom() =~= tmap(t).dom());
        },
    }
}

/// Trees of identical structure (same nodes, colours, keys and indices,
/// values aside) are interchangeable in every predicate that ignores values.
proof fn lemma_same_struct<T: TotalOrder, U>(a: Tree<T, U>, b: Tree<T, U>)
    requires
        same_struct(a, b),
    ensures
        kmap(a) == kmap(b),
        idxs(a) == idxs(b),
        count(a) == count(b),
        root_idx(a) == root_idx(b),
        red(a) == red(b),
        bst(a) == bst(b),
        nrr(a) == nrr(b),
        bh(a) == bh(b),
        bh_ok(a) == bh_ok(b),
        uniq(a) == uniq(b),
        min_idx(a) == min_idx(b),
        max_idx(a) == max_idx(b),
        key_seq(a) == key_seq(b),
        forall|s: Seq<Tll>, q: usize| #[trigger] rep(a, s, q) == rep(b, s, q),
    decreases a,
{
    match a {
        Tree::Leaf => {
            assert(b is Leaf);
        },
        Tree::Node { left: al, right: ar, .. } => {
            match b {
                Tree::Leaf => {
                    assert(false);
                },
                Tree::Node { left: bl, right: br, .. } => {
                    lemma_same_struct(*al, *bl);
                    lemma_same_struct(*ar, *br);
                    assert(kmap(a) =~= kmap(b));
                    assert(idxs(a) =~= idxs(b));
                    assert forall|s: Seq<Tll>, q: usize| #[trigger] rep(a, s, q) == rep(
                        b,
                        s,
                        q,
                    ) by {
                        assert(rep(*al, s, root_idx(a)) == rep(*bl, s, root_idx(b)));
                        assert(rep(*ar, s, root_idx(a)) == rep(*br, s, root_idx(b)));
                    }
                },
            }
        },
    }
}

/// A tree has the same structure as itself.
proof fn lemma_same_struct_refl<T, U>(t: Tree<T, U>)
    ensures
        same_struct(t, t),
    decreases t,
{
    match t {
        Tree::Leaf => {},
        Tree::Node { left, right, .. } => {
            lemma_same_struct_refl(*left);
            lemma_same_struct_refl(*right);
        },
    }
}

/// `t` with its root coloured black.
pub open spec fn with_black<T, U>(t: Tree<T, U>) -> Tree<T, U> {
    match t {
        Tree::Leaf => Tree::Leaf,
        Tree::Node { left, right, red: _, idx, key, val } => Tree::Node {
            left,
            right,
            red: false,
            idx,
            key,
            val,
        },
    }
}

/// Recolour the root black, leaving everything else as it is.
fn set_black<T, U>(t: Tree<T, U>) -> (r: Tree<T, U>)
    ensures
        r == with_black(t),
{
    match t {
        Tree::Leaf => Tree::Leaf,
        Tree::Node { left, right, red: _, idx, key, val } => Tree::Node {
            left,
            right,
            red: false,
            idx,
            key,
            val,
        },
    }
}

impl<T: TotalOrder, U> TllContainer<T, U> {
    /// Does the ordered tree `t` hold `key`?
    fn contains_rec(t: &Tree<T, U>, key: &T) -> (r: bool)
        requires
            bst(*t),
        ensures
            r == kmap(*t).dom().contains(*key),
        decreases *t,
    {
        match t {
            Tree::Leaf => false,
            Tree::Node { left, right, key: nkey, .. } => {
                match key.compare(nkey) {
                    Cmp::Equal => true,
                    Cmp::Less => {
                        proof {
                            if kmap(**right).dom().contains(*key) {
                                lemma_lt_asym(*key, *nkey);
                            }
                        }
                        Self::contains_rec(left, key)
                    },
                    Cmp::Greater => {
                        proof {
                            if kmap(**left).dom().contains(*key) {
                                lemma_lt_asym(*nkey, *key);
                            }
                        }
                        Self::contains_rec(right, key)
                    },
                }
            },
        }
    }

    /// Row index of the node holding `key`, or `0` (the sentinel) when the
    /// key is absent.
    pub fn find_idx(&self, key: &T) -> (r: usize)
        requires
            self.bst_wf(),
        ensures
            kmap(self.shape).dom().contains(*key) ==> r == kmap(self.shape)[*key],
            !kmap(self.shape).dom().contains(*key) ==> r == 0,
    {
        Self::find_rec(&self.shape, key)
    }

    fn find_rec(t: &Tree<T, U>, key: &T) -> (r: usize)
        requires
            bst(*t),
        ensures
            kmap(*t).dom().contains(*key) ==> r == kmap(*t)[*key],
            !kmap(*t).dom().contains(*key) ==> r == 0,
        decreases *t,
    {
        match t {
            Tree::Leaf => 0,
            Tree::Node { left, right, idx, key: nkey, .. } => {
                match key.compare(nkey) {
                    Cmp::Equal => *idx,
                    Cmp::Less => {
                        proof {
                            if kmap(**right).dom().contains(*key) {
                                lemma_lt_asym(*key, *nkey);
                            }
                        }
                        Self::find_rec(left, key)
                    },
                    Cmp::Greater => {
                        proof {
                            if kmap(**left).dom().contains(*key) {
                                lemma_lt_asym(*nkey, *key);
                            }
                        }
                        Self::find_rec(right, key)
                    },
                }
            },
        }
    }

    /// Replace the value stored under an existing key, leaving the tree's
    /// structure, colours and links untouched.
    fn set_val(t: Tree<T, U>, key: T, value: U) -> (r: Tree<T, U>)
        requires
            bst(t),
            kmap(t).dom().contains(key),
        ensures
            same_struct(r, t),
            tmap(r) == tmap(t).insert(key, value),
        decreases t,
    {
        match t {
            Tree::Leaf => {
                proof {
                    assert(false);
                }
                Tree::Leaf
            },
            Tree::Node { left, right, red, idx, key: nkey, val: nval } => {
                match key.compare(&nkey) {
                    Cmp::Equal => {
                        let r = Tree::Node { left, right, red, idx, key: nkey, val: value };
                        proof {
                            lemma_same_struct_refl(r);
                            assert(tmap(r) =~= tmap(t).insert(key, value));
                        }
                        r
                    },
                    Cmp::Less => {
                        proof {
                            if kmap(*right).dom().contains(key) {
                                lemma_lt_asym(key, nkey);
                            }
                            lemma_doms_eq(*right);
                            lemma_doms_eq(*left);
                        }
                        let ghost lold = *left;
                        let l2 = Self::set_val(*left, key, value);
                        let r = Tree::Node {
                            left: Box::new(l2),
                            right,
                            red,
                            idx,
                            key: nkey,
                            val: nval,
                        };
                        proof {
                            lemma_same_struct_refl(*right);
                            assert(tmap(r) =~= tmap(t).insert(key, value));
                        }
                        r
                    },
                    Cmp::Greater => {
                        proof {
                            if kmap(*left).dom().contains(key) {
                                lemma_lt_asym(nkey, key);
                            }
                            lemma_doms_eq(*right);
                            lemma_doms_eq(*left);
                        }
                        let ghost rold = *right;
                        let r2 = Self::set_val(*right, key, value);
                        let r = Tree::Node {
                            left,
                            right: Box::new(r2),
                            red,
                            idx,
                            key: nkey,
                            val: nval,
                        };
                        proof {
                            lemma_same_struct_refl(*left);
                            assert(tmap(r) =~= tmap(t).insert(key, value));
                        }
                        r
                    },
                }
            },
        }
    }
}



/// Union of maps is associative.
proof fn lemma_union_assoc<K, V>(a: Map<K, V>, b: Map<K, V>, c: Map<K, V>)
    ensures
        a.union_prefer_right(b).union_prefer_right(c) == a.union_prefer_right(
            b.union_prefer_right(c),
        ),
{
    assert(a.union_prefer_right(b).union_prefer_right(c) =~= a.union_prefer_right(
        b.union_prefer_right(c),
    ));
}

/// Insertions under distinct keys commute.
proof fn lemma_ins_commute<K, V>(m: Map<K, V>, k1: K, v1: V, k2: K, v2: V)
    requires
        k1 != k2,
    ensures
        m.insert(k1, v1).insert(k2, v2) == m.insert(k2, v2).insert(k1, v1),
{
    assert(m.insert(k1, v1).insert(k2, v2) =~= m.insert(k2, v2).insert(k1, v1));
}

/// Map content of a single left rotation at the top of the left child, after
/// an insertion into that child produced `(a + b) + lk`.
proof fn lemma_rot_single_left<K, V>(
    a: Map<K, V>,
    b: Map<K, V>,
    u: Map<K, V>,
    tl: Map<K, V>,
    lk: K,
    lv: V,
    nk: K,
    nv: V,
    key: K,
    kv: V,
)
    requires
        a.union_prefer_right(b).insert(lk, lv) == tl.insert(key, kv),
        !u.dom().contains(lk),
        !u.dom().contains(key),
        lk != nk,
        key != nk,
    ensures
        a.union_prefer_right(b.union_prefer_right(u).insert(nk, nv)).insert(lk, lv)
            == tl.union_prefer_right(u).insert(nk, nv).insert(key, kv),
{
    let ab = a.union_prefer_right(b);
    lemma_union_insert_right(a, b.union_prefer_right(u), nk, nv);
    lemma_union_assoc(a, b, u);
    lemma_ins_commute(ab.union_prefer_right(u), nk, nv, lk, lv);
    lemma_union_insert_left(ab, u, lk, lv);
    lemma_union_insert_left(tl, u, key, kv);
    lemma_ins_commute(tl.union_prefer_right(u), key, kv, nk, nv);
    assert(a.union_prefer_right(b.union_prefer_right(u).insert(nk, nv)).insert(lk, lv)
        == ab.union_prefer_right(u).insert(nk, nv).insert(lk, lv));
    assert(ab.union_prefer_right(u).insert(nk, nv).insert(lk, lv) == ab.insert(
        lk,
        lv,
    ).union_prefer_right(u).insert(nk, nv));
    assert(ab.insert(lk, lv).union_prefer_right(u) == tl.insert(key, kv).union_prefer_right(u));
    assert(tl.insert(key, kv).union_prefer_right(u).insert(nk, nv) == tl.union_prefer_right(
        u,
    ).insert(key, kv).insert(nk, nv));
}

/// Map content of the double rotation (left child, red inner grandchild).
proof fn lemma_rot_double_left<K, V>(
    a: Map<K, V>,
    zl: Map<K, V>,
    zr: Map<K, V>,
    u: Map<K, V>,
    tl: Map<K, V>,
    lk: K,
    lv: V,
    zk: K,
    zv: V,
    nk: K,
    nv: V,
    key: K,
    kv: V,
)
    requires
        a.union_prefer_right(zl.union_prefer_right(zr).insert(zk, zv)).insert(lk, lv) == tl.insert(
            key,
            kv,
        ),
        !u.dom().contains(lk),
        !u.dom().contains(zk),
        !u.dom().contains(key),
        !zr.dom().contains(lk),
        lk != zk,
        lk != nk,
        zk != nk,
        key != nk,
    ensures
        a.union_prefer_right(zl).insert(lk, lv).union_prefer_right(
            zr.union_prefer_right(u).insert(nk, nv),
        ).insert(zk, zv) == tl.union_prefer_right(u).insert(nk, nv).insert(key, kv),
{
    let azl = a.union_prefer_right(zl);
    let azlzr = azl.union_prefer_right(zr);
    let lhs = azl.insert(lk, lv).union_prefer_right(zr.union_prefer_right(u).insert(nk, nv)).insert(
        zk,
        zv,
    );
    lemma_union_insert_right(azl.insert(lk, lv), zr.union_prefer_right(u), nk, nv);
    lemma_union_assoc(azl.insert(lk, lv), zr, u);
    lemma_union_insert_left(azl, zr, lk, lv);
    lemma_union_insert_left(azlzr, u, lk, lv);
    assert(lhs == azlzr.union_prefer_right(u).insert(lk, lv).insert(nk, nv).insert(zk, zv));
    let base = azlzr.union_prefer_right(u);
    lemma_ins_commute(base.insert(lk, lv), nk, nv, zk, zv);
    lemma_ins_commute(base, lk, lv, zk, zv);
    assert(lhs == base.insert(zk, zv).insert(lk, lv).insert(nk, nv));
    // now relate the other side
    lemma_union_insert_right(a, zl.union_prefer_right(zr), zk, zv);
    lemma_union_assoc(a, zl, zr);
    assert(a.union_prefer_right(zl.union_prefer_right(zr).insert(zk, zv)).insert(lk, lv)
        == azlzr.insert(zk, zv).insert(lk, lv));
    assert(azlzr.insert(zk, zv).insert(lk, lv) == tl.insert(key, kv));
    lemma_union_insert_left(azlzr.insert(zk, zv), u, lk, lv);
    lemma_union_insert_left(azlzr, u, zk, zv);
    assert(base.insert(zk, zv).insert(lk, lv) == azlzr.insert(zk, zv).insert(lk, lv
    ).union_prefer_right(u));
    assert(base.insert(zk, zv).insert(lk, lv) == tl.insert(key, kv).union_prefer_right(u));
    lemma_union_insert_left(tl, u, key, kv);
    assert(base.insert(zk, zv).insert(lk, lv) == tl.union_prefer_right(u).insert(key, kv));
    lemma_ins_commute(tl.union_prefer_right(u), key, kv, nk, nv);
    assert(lhs == tl.union_prefer_right(u).insert(key, kv).insert(nk, nv));
}

/// Map content of a single right rotation at the top of the right child.
proof fn lemma_rot_single_right<K, V>(
    tl: Map<K, V>,
    b: Map<K, V>,
    c: Map<K, V>,
    tu: Map<K, V>,
    rk: K,
    rv: V,
    nk: K,
    nv: V,
    key: K,
    kv: V,
)
    requires
        b.union_prefer_right(c).insert(rk, rv) == tu.insert(key, kv),
        !c.dom().contains(nk),
        rk != nk,
        key != nk,
    ensures
        tl.union_prefer_right(b).insert(nk, nv).union_prefer_right(c).insert(rk, rv)
            == tl.union_prefer_right(tu).insert(nk, nv).insert(key, kv),
{
    let tlb = tl.union_prefer_right(b);
    lemma_union_insert_left(tlb, c, nk, nv);
    lemma_union_assoc(tl, b, c);
    let base = tl.union_prefer_right(b.union_prefer_right(c));
    assert(tl.union_prefer_right(b).insert(nk, nv).union_prefer_right(c).insert(rk, rv)
        == base.insert(nk, nv).insert(rk, rv));
    lemma_ins_commute(base, nk, nv, rk, rv);
    lemma_union_insert_right(tl, b.union_prefer_right(c), rk, rv);
    assert(base.insert(rk, rv) == tl.union_prefer_right(b.union_prefer_right(c).insert(rk, rv)));
    assert(base.insert(rk, rv) == tl.union_prefer_right(tu.insert(key, kv)));
    lemma_union_insert_right(tl, tu, key, kv);
    assert(base.insert(rk, rv) == tl.union_prefer_right(tu).insert(key, kv));
    lemma_ins_commute(tl.union_prefer_right(tu), key, kv, nk, nv);
}

/// Map content of the double rotation (right child, red inner grandchild).
proof fn lemma_rot_double_right<K, V>(
    tl: Map<K, V>,
    zl: Map<K, V>,
    zr: Map<K, V>,
    c: Map<K, V>,
    tu: Map<K, V>,
    rk: K,
    rv: V,
    zk: K,
    zv: V,
    nk: K,
    nv: V,
    key: K,
    kv: V,
)
    requires
        zl.union_prefer_right(zr).insert(zk, zv).union_prefer_right(c).insert(rk, rv) == tu.insert(
            key,
            kv,
        ),
        !zr.dom().contains(nk),
        !c.dom().contains(nk),
        !c.dom().contains(zk),
        zk != rk,
        zk != nk,
        rk != nk,
        key != nk,
    ensures
        tl.union_prefer_right(zl).insert(nk, nv).union_prefer_right(
            zr.union_prefer_right(c).insert(rk, rv),
        ).insert(zk, zv) == tl.union_prefer_right(tu).insert(nk, nv).insert(key, kv),
{
    let tlzl = tl.union_prefer_right(zl);
    let lhs = tlzl.insert(nk, nv).union_prefer_right(zr.union_prefer_right(c).insert(rk, rv)).insert(
        zk,
        zv,
    );
    lemma_union_insert_right(tlzl.insert(nk, nv), zr.union_prefer_right(c), rk, rv);
    lemma_union_assoc(tlzl.insert(nk, nv), zr, c);
    lemma_union_insert_left(tlzl, zr, nk, nv);
    lemma_union_insert_left(tlzl.union_prefer_right(zr), c, nk, nv);
    let base = tlzl.union_prefer_right(zr).union_prefer_right(c);
    assert(lhs == base.insert(nk, nv).insert(rk, rv).insert(zk, zv));
    lemma_ins_commute(base.insert(nk, nv), rk, rv, zk, zv);
    lemma_ins_commute(base, nk, nv, zk, zv);
    lemma_ins_commute(base.insert(zk, zv), nk, nv, rk, rv);
    assert(lhs == base.insert(zk, zv).insert(rk, rv).insert(nk, nv));
    // other side
    let zlzr = zl.union_prefer_right(zr);
    lemma_union_insert_left(zlzr, c, zk, zv);
    lemma_union_assoc(zl, zr, c);
    assert(zlzr.insert(zk, zv).union_prefer_right(c).insert(rk, rv) == zlzr.union_prefer_right(
        c,
    ).insert(zk, zv).insert(rk, rv));
    lemma_union_assoc(tl, zlzr, c);
    lemma_union_assoc(tl, zl, zr);
    lemma_union_insert_right(tl, zlzr.union_prefer_right(c), zk, zv);
    lemma_union_insert_right(tl, zlzr.union_prefer_right(c).insert(zk, zv), rk, rv);
    assert(base == tl.union_prefer_right(zlzr.union_prefer_right(c)));
    assert(base.insert(zk, zv).insert(rk, rv) == tl.union_prefer_right(
        zlzr.union_prefer_right(c).insert(zk, zv).insert(rk, rv),
    ));
    assert(zlzr.union_prefer_right(c).insert(zk, zv).insert(rk, rv) == tu.insert(key, kv));
    lemma_union_insert_right(tl, tu, key, kv);
    assert(base.insert(zk, zv).insert(rk, rv) == tl.union_prefer_right(tu).insert(key, kv));
    lemma_ins_commute(tl.union_prefer_right(tu), key, kv, nk, nv);
}

impl<T: TotalOrder, U> TllContainer<T, U> {
    /// Insert a fresh key below the root of `t` as a red node with row index
    /// `idx`, then repair the red-black colouring on the way back up, exactly
    /// as the classic bottom-up fixup does: a red uncle means recolouring and
    /// a violation handed one level up; a black uncle means one or two
    /// rotations that settle the subtree for good. The root of the result may
    /// be red, and may be in violation with one child only when the root of
    /// `t` was itself red; the caller at the next level up (or the tree-level
    /// wrapper, which blackens the root) repairs that.
    fn insert_rec(t: Tree<T, U>, key: T, value: U, idx: usize) -> (r: Tree<T, U>)
        requires
            bst(t),
            nrr(t),
            bh_ok(t),
            uniq(t),
            !idxs(t).contains(idx),
            !kmap(t).dom().contains(key),
            1 <= idx,
        ensures
            r is Node,
            bst(r),
            kmap(r) == kmap(t).insert(key, idx),
            tmap(r) == tmap(t).insert(key, value),
            idxs(r) == idxs(t).insert(idx),
            uniq(r),
            count(r) == count(t) + 1,
            bh(r) == bh(t),
            bh_ok(r),
            nrr_children(r),
            !red(t) ==> nrr(r),
            red(t) ==> red(r) && !(lred(r) && rred(r)),
        decreases t,
    {
        match t {
            Tree::Leaf => {
                let r = Tree::Node {
                    left: Box::new(Tree::Leaf),
                    right: Box::new(Tree::Leaf),
                    red: true,
                    idx,
                    key,
                    val: value,
                };
                proof {
                    assert(kmap(r) =~= kmap(t).insert(key, idx));
                    assert(tmap(r) =~= tmap(t).insert(key, value));
                    assert(idxs(r) =~= idxs(t).insert(idx));
                    assert(bst(r));
                    assert(uniq(r));
                    assert(count(r) == 1);
                    assert(bh(r) == 0);
                    assert(bh_ok(r));
                    assert(nrr(r));
                }
                r
            },
            Tree::Node { left, right, red: nred, idx: nidx, key: nkey, val: nval } => {
                let ghost t0 = t;
                let ghost tl = *left;
                let ghost tu = *right;
                let c = key.compare(&nkey);
                match c {
                    Cmp::Equal => {
                        proof {
                            assert(kmap(t0).dom().contains(nkey));
                            assert(false);
                        }
                        Tree::Leaf
                    },
                    Cmp::Less => {
                        proof {
                            if kmap(tl).dom().contains(key) {
                                assert(kmap(t0).dom().contains(key));
                            }
                            if kmap(tu).dom().contains(key) {
                                lemma_lt_asym(key, nkey);
                            }
                            lemma_doms_eq(tl);
                            lemma_doms_eq(tu);
                        }
                        let l2 = Self::insert_rec(*left, key, value, idx);
                        let rl = has_red_left(&l2);
                        let rr = has_red_right(&l2);
                        let viol = has_red_root(&l2) && (rl || rr);
                        proof {
                            if viol {
                                assert(red(tl));
                                assert(!nred);
                            }
                        }
                        if !viol {
                            let r = Tree::Node {
                                left: Box::new(l2),
                                right,
                                red: nred,
                                idx: nidx,
                                key: nkey,
                                val: nval,
                            };
                            proof {
                                assert forall|x: T| #[trigger]
                                    kmap(l2).dom().contains(x) implies lt(x, nkey) by {
                                    if x != key {
                                        assert(kmap(tl).dom().contains(x));
                                    }
                                }
                                assert(kmap(r) =~= kmap(t0).insert(key, idx));
                                assert(tmap(r) =~= tmap(t0).insert(key, value));
                                assert(idxs(r) =~= idxs(t0).insert(idx));
                                assert(uniq(l2));
                                assert(uniq(tu));
                                assert forall|x: usize| #[trigger]
                                    idxs(l2).contains(x) implies !idxs(tu).contains(x) && x
                                    != nidx by {
                                    if x == idx {
                                    } else {
                                        assert(idxs(tl).contains(x));
                                    }
                                }
                                assert(idxs(l2).disjoint(idxs(tu)));
                                assert(!idxs(l2).contains(nidx));
                                assert(!idxs(tu).contains(nidx));
                                assert(uniq(r));
                                assert(count(r) == 1 + count(l2) + count(tu));
                                assert(count(t0) == 1 + count(tl) + count(tu));
                                assert(count(r) == count(t0) + 1);
                                assert(bh_ok(l2));
                                assert(bh_ok(tu));
                                assert(bh(l2) == bh(tl));
                                assert(bh(tl) == bh(tu));
                                assert(bh_ok(r));
                                assert(bh(r) == bh(t0));
                                assert(nrr(l2));
                                assert(nrr(tu));
                                assert(nrr_children(r));
                                if !nred {
                                    assert(nrr(r));
                                }
                                if nred {
                                    assert(!red(tu));
                                }
                            }
                            r
                        } else if has_red_root(&right) {
                            // red uncle: recolour, hand the violation upward
                            let u2 = set_black(*right);
                            let l3 = set_black(l2);
                            let ghost l2g = l2;
                            let r = Tree::Node {
                                left: Box::new(l3),
                                right: Box::new(u2),
                                red: true,
                                idx: nidx,
                                key: nkey,
                                val: nval,
                            };
                            proof {
                                assert(kmap(l3) == kmap(l2g));
                                assert(tmap(l3) == tmap(l2g));
                                assert(idxs(l3) == idxs(l2g));
                                assert(kmap(u2) == kmap(tu));
                                assert(tmap(u2) == tmap(tu));
                                assert(idxs(u2) == idxs(tu));
                                assert forall|x: T| #[trigger]
                                    kmap(l3).dom().contains(x) implies lt(x, nkey) by {
                                    if x != key {
                                        assert(kmap(tl).dom().contains(x));
                                    }
                                }
                                assert(kmap(r) =~= kmap(t0).insert(key, idx));
                                assert(tmap(r) =~= tmap(t0).insert(key, value));
                                assert(idxs(r) =~= idxs(t0).insert(idx));
                                assert(bh(l3) == bh(l2g) + 1);
                                assert(bh(u2) == bh(tu) + 1);
                                assert(uniq(l2g));
                                assert(uniq(tu));
                                assert(uniq(l3));
                                assert(uniq(u2));
                                assert forall|x: usize| #[trigger]
                                    idxs(l2g).contains(x) implies !idxs(tu).contains(x) && x
                                    != nidx by {
                                    if x == idx {
                                    } else {
                                        assert(idxs(tl).contains(x));
                                    }
                                }
                                assert(idxs(l3).disjoint(idxs(u2)));
                                assert(!idxs(l3).contains(nidx));
                                assert(!idxs(u2).contains(nidx));
                                assert(uniq(r));
                                assert(count(l3) == count(l2g));
                                assert(count(u2) == count(tu));
                                assert(count(r) == 1 + count(l2g) + count(tu));
                                assert(count(t0) == 1 + count(tl) + count(tu));
                                assert(count(r) == count(t0) + 1);
                                assert(bh_ok(l2g));
                                assert(bh_ok(tu));
                                assert(bh_ok(l3));
                                assert(bh_ok(u2));
                                assert(bh(l2g) == bh(tl));
                                assert(bh(tl) == bh(tu));
                                assert(bh_ok(r));
                                assert(bh(r) == bh(t0));
                                assert(nrr_children(l2g));
                                assert(nrr(tu));
                                assert(bst(tu));
                                assert(nrr(l3));
                                assert(nrr(u2));
                                assert(nrr(r));
                                assert(bst(l3));
                                assert(bst(u2));
                                assert(bst(r));
                            }
                            r
                        } else {
                            // black uncle: one or two rotations settle it
                            let ghost l2g = l2;
                            match l2 {
                                Tree::Leaf => {
                                    proof {
                                        assert(false);
                                    }
                                    Tree::Leaf
                                },
                                Tree::Node {
                                    left: ll,
                                    right: lr,
                                    red: l2red,
                                    idx: li,
                                    key: lk,
                                    val: lv,
                                } => {
                                    if rr && !rl {
                                        // inner grandchild is red: double rotation
                                        let ghost lrg = *lr;
                                        match *lr {
                                            Tree::Leaf => {
                                                proof {
                                                    assert(false);
                                                }
                                                Tree::Leaf
                                            },
                                            Tree::Node {
                                                left: zl,
                                                right: zr,
                                                red: _zred,
                                                idx: zi,
                                                key: zk,
                                                val: zv,
                                            } => {
                                                let pl = Tree::Node {
                                                    left: ll,
                                                    right: zl,
                                                    red: true,
                                                    idx: li,
                                                    key: lk,
                                                    val: lv,
                                                };
                                                let gn = Tree::Node {
                                                    left: zr,
                                                    right,
                                                    red: true,
                                                    idx: nidx,
                                                    key: nkey,
                                                    val: nval,
                                                };
                                                let r = Tree::Node {
                                                    left: Box::new(pl),
                                                    right: Box::new(gn),
                                                    red: false,
                                                    idx: zi,
                                                    key: zk,
                                                    val: zv,
                                                };
                                                proof {
                                                    assert(kmap(lrg).dom().contains(zk));
                                                    assert(kmap(l2g).dom().contains(zk));
                                                    assert(lt(lk, zk));
                                                    assert(lt(zk, nkey)) by {
                                                        if zk == key {
                                                        } else {
                                                            assert(kmap(tl).dom().contains(zk));
                                                        }
                                                    }
                                                    assert forall|x: T| #[trigger]
                                                        kmap(pl).dom().contains(x) implies lt(
                                                        x,
                                                        zk,
                                                    ) by {
                                                        if x == lk {
                                                            assert(lt(lk, zk));
                                                        } else if kmap(*zl).dom().contains(x) {
                                                            assert(kmap(lrg).dom().contains(x));
                                                            assert(bst(lrg));
                                                            assert(lt(x, zk));
                                                        } else {
                                                            assert(kmap(*ll).dom().contains(x));
                                                            assert(lt(x, lk));
                                                            lemma_lt_trans(x, lk, zk);
                                                        }
                                                    }
                                                    assert forall|x: T| #[trigger]
                                                        kmap(gn).dom().contains(x) implies lt(
                                                        zk,
                                                        x,
                                                    ) by {
                                                        if x == nkey {
                                                            assert(lt(zk, nkey));
                                                        } else if kmap(*zr).dom().contains(x) {
                                                            assert(kmap(lrg).dom().contains(x));
                                                            assert(bst(lrg));
                                                            assert(lt(zk, x));
                                                        } else {
                                                            assert(kmap(tu).dom().contains(x));
                                                            assert(lt(nkey, x));
                                                            lemma_lt_trans(zk, nkey, x);
                                                        }
                                                    }
                                                    assert forall|x: T| #[trigger]
                                                        kmap(*zl).dom().contains(x) implies lt(
                                                        lk,
                                                        x,
                                                    ) by {
                                                        assert(kmap(lrg).dom().contains(x));
                                                    }
                                                    assert forall|x: T| #[trigger]
                                                        kmap(*zr).dom().contains(x) implies lt(
                                                        x,
                                                        nkey,
                                                    ) by {
                                                        assert(kmap(lrg).dom().contains(x));
                                                        assert(kmap(l2g).dom().contains(x));
                                                        if x == key {
                                                        } else {
                                                            assert(kmap(tl).dom().contains(x));
                                                        }
                                                    }
                                                    assert(bst(l2g));
                                                    assert(bst(lrg));
                                                    assert(bst(*ll));
                                                    assert(bst(*zl));
                                                    assert(bst(*zr));
                                                    assert(bst(tu));
                                                    {
                                                        lemma_doms_eq(*ll);
                                                        lemma_doms_eq(*zl);
                                                        lemma_doms_eq(*zr);
                                                        if kmap(tu).dom().contains(zk) {
                                                            lemma_lt_asym(zk, nkey);
                                                        }
                                                        if kmap(*zr).dom().contains(lk) {
                                                            lemma_lt_asym(lk, zk);
                                                        }
                                                        if kmap(tu).dom().contains(lk) {
                                                            lemma_lt_trans(lk, zk, nkey);
                                                            lemma_lt_asym(lk, nkey);
                                                        }
                                                    }
                                                    assert(bst(pl));
                                                    assert(bst(gn));
                                                    assert(bst(r));
                                                    assert(kmap(pl) == kmap(*ll).union_prefer_right(
                                                        kmap(*zl)).insert(lk, li));
                                                    assert(kmap(gn) == kmap(*zr).union_prefer_right(
                                                        kmap(tu)).insert(nkey, nidx));
                                                    assert(kmap(lrg) == kmap(*zl).union_prefer_right(
                                                        kmap(*zr)).insert(zk, zi));
                                                    assert(kmap(l2g) == kmap(*ll).union_prefer_right(
                                                        kmap(lrg)).insert(lk, li));
                                                    assert(kmap(l2g) == kmap(tl).insert(key, idx));
                                                    assert(tmap(pl) == tmap(*ll).union_prefer_right(
                                                        tmap(*zl)).insert(lk, lv));
                                                    assert(tmap(gn) == tmap(*zr).union_prefer_right(
                                                        tmap(tu)).insert(nkey, nval));
                                                    assert(tmap(lrg) == tmap(*zl).union_prefer_right(
                                                        tmap(*zr)).insert(zk, zv));
                                                    assert(tmap(l2g) == tmap(*ll).union_prefer_right(
                                                        tmap(lrg)).insert(lk, lv));
                                                    assert(tmap(l2g) == tmap(tl).insert(key, value));
                                                    lemma_lt_trans(lk, zk, nkey);
                                                    assert(idxs(lrg) == idxs(*zl).union(
                                                        idxs(*zr)).insert(zi));
                                                    assert(idxs(l2g) == idxs(*ll).union(
                                                        idxs(lrg)).insert(li));
                                                    assert forall|x: usize| #[trigger]
                                                        idxs(l2g).contains(x) implies !idxs(
                                                        tu,
                                                    ).contains(x) && x != nidx by {
                                                        if x == idx {
                                                        } else {
                                                            assert(idxs(tl).contains(x));
                                                        }
                                                    }
                                                    lemma_rot_double_left(
                                                        kmap(*ll),
                                                        kmap(*zl),
                                                        kmap(*zr),
                                                        kmap(tu),
                                                        kmap(tl),
                                                        lk,
                                                        li,
                                                        zk,
                                                        zi,
                                                        nkey,
                                                        nidx,
                                                        key,
                                                        idx,
                                                    );
                                                    lemma_rot_double_left(
                                                        tmap(*ll),
                                                        tmap(*zl),
                                                        tmap(*zr),
                                                        tmap(tu),
                                                        tmap(tl),
                                                        lk,
                                                        lv,
                                                        zk,
                                                        zv,
                                                        nkey,
                                                        nval,
                                                        key,
                                                        value,
                                                    );
                                                    assert(kmap(r) == kmap(t0).insert(key, idx));
                                                    assert(tmap(r) == tmap(t0).insert(key, value));
                                                    assert(uniq(l2g));
                                                    assert(uniq(lrg));
                                                    assert(uniq(*ll));
                                                    assert(uniq(*zl));
                                                    assert(uniq(*zr));
                                                    assert(uniq(tu));
                                                    assert(nrr_children(l2g));
                                                    assert(nrr(lrg));
                                                    assert(nrr(*ll));
                                                    assert(nrr(*zl));
                                                    assert(nrr(*zr));
                                                    assert(nrr(tu));
                                                    assert(red(l2g));
                                                    assert(red(lrg));
                                                    assert(bh_ok(l2g));
                                                    assert(bh_ok(lrg));
                                                    assert(bh_ok(*ll));
                                                    assert(bh_ok(*zl));
                                                    assert(bh_ok(*zr));
                                                    assert(bh_ok(tu));
                                                    assert(bh(l2g) == bh(tl));
                                                    assert(bh(l2g) == bh(*ll));
                                                    assert(bh(lrg) == bh(*zl));
                                                    assert(bh(*ll) == bh(lrg));
                                                    assert(bh(*zl) == bh(*zr));
                                                    assert(bh(tl) == bh(tu));
                                                    assert(bh(pl) == bh(*ll));
                                                    assert(bh(gn) == bh(*zr));
                                                    assert(bh_ok(pl));
                                                    assert(bh_ok(gn));
                                                    assert(bh(r) == bh(pl) + 1);
                                                    assert(bh(t0) == bh(tl) + 1);
                                                    assert(bh_ok(r));
                                                    assert(bh(r) == bh(t0));
                                                    assert(!red(*ll));
                                                    assert(!red(*zl));
                                                    assert(!red(*zr));
                                                    assert(!red(tu));
                                                    assert(nrr(pl));
                                                    assert(nrr(gn));
                                                    assert(nrr(r));
                                                    assert(count(pl) == 1 + count(*ll) + count(
                                                        *zl,
                                                    ));
                                                    assert(count(gn) == 1 + count(*zr) + count(
                                                        tu,
                                                    ));
                                                    assert(count(lrg) == 1 + count(*zl) + count(
                                                        *zr,
                                                    ));
                                                    assert(count(l2g) == 1 + count(*ll) + count(
                                                        lrg,
                                                    ));
                                                    assert(count(l2g) == count(tl) + 1);
                                                    assert(count(t0) == 1 + count(tl) + count(tu));
                                                    assert(count(r) == count(t0) + 1);
                                                    assert(idxs(r) == idxs(pl).union(
                                                        idxs(gn)).insert(zi));
                                                    assert(idxs(pl) == idxs(*ll).union(
                                                        idxs(*zl)).insert(li));
                                                    assert(idxs(gn) == idxs(*zr).union(
                                                        idxs(tu)).insert(nidx));
                                                    assert(idxs(t0) == idxs(tl).union(
                                                        idxs(tu)).insert(nidx));
                                                    assert forall|x: usize| #[trigger]
                                                        idxs(*zl).contains(x) implies idxs(
                                                        lrg,
                                                    ).contains(x) && idxs(l2g).contains(x) by {}
                                                    assert forall|x: usize| #[trigger]
                                                        idxs(*zr).contains(x) implies idxs(
                                                        lrg,
                                                    ).contains(x) && idxs(l2g).contains(x) by {}
                                                    assert forall|x: usize| #[trigger]
                                                        idxs(*ll).contains(x) implies idxs(
                                                        l2g,
                                                    ).contains(x) by {}
                                                    assert(idxs(l2g).contains(li));
                                                    assert(idxs(lrg).contains(zi));
                                                    assert(idxs(l2g).contains(zi));
                                                    assert(idxs(l2g) =~= idxs(*ll).union(
                                                        idxs(*zl)).union(idxs(*zr)).insert(
                                                        li,
                                                    ).insert(zi));
                                                    assert(idxs(r) =~= idxs(l2g).union(
                                                        idxs(tu)).insert(nidx));
                                                    assert(idxs(t0).insert(idx) =~= idxs(
                                                        tl,
                                                    ).insert(idx).union(idxs(tu)).insert(nidx));
                                                    assert(idxs(r) =~= idxs(t0).insert(idx));
                                                    assert(idxs(*ll).disjoint(idxs(*zl)));
                                                    assert(!idxs(*zl).contains(li));
                                                    assert(uniq(pl));
                                                    assert(idxs(*zr).disjoint(idxs(tu)));
                                                    assert(!idxs(tu).contains(nidx));
                                                    assert(!idxs(*zr).contains(nidx));
                                                    assert(uniq(gn));
                                                    assert(idxs(pl).disjoint(idxs(gn)));
                                                    assert(!idxs(pl).contains(zi));
                                                    assert(!idxs(gn).contains(zi));
                                                    assert(uniq(r));
                                                    assert(bh(r) == bh(t0));
                                                    assert(bh_ok(r));
                                                    assert(nrr(r));
                                                }
                                                r
                                            },
                                        }
                                    } else {
                                        // outer grandchild is red: single rotation
                                        proof {
                                            assert(rl);
                                            assert(!rr);
                                        }
                                        let gn = Tree::Node {
                                            left: lr,
                                            right,
                                            red: true,
                                            idx: nidx,
                                            key: nkey,
                                            val: nval,
                                        };
                                        let r = Tree::Node {
                                            left: ll,
                                            right: Box::new(gn),
                                            red: false,
                                            idx: li,
                                            key: lk,
                                            val: lv,
                                        };
                                        proof {
                                            assert(kmap(l2g).dom().contains(lk));
                                            assert(lt(lk, nkey)) by {
                                                if lk == key {
                                                } else {
                                                    assert(kmap(tl).dom().contains(lk));
                                                }
                                            }
                                            assert forall|x: T| #[trigger]
                                                kmap(gn).dom().contains(x) implies lt(lk, x) by {
                                                if x == nkey {
                                                } else if kmap(*lr).dom().contains(x) {
                                                    assert(lt(lk, x));
                                                } else {
                                                    assert(kmap(tu).dom().contains(x));
                                                    assert(lt(nkey, x));
                                                    lemma_lt_trans(lk, nkey, x);
                                                }
                                            }
                                            assert forall|x: T| #[trigger]
                                                kmap(*lr).dom().contains(x) implies lt(
                                                x,
                                                nkey,
                                            ) by {
                                                assert(kmap(l2g).dom().contains(x));
                                                if x == key {
                                                } else {
                                                    assert(kmap(tl).dom().contains(x));
                                                }
                                            }
                                            assert(bst(l2g));
                                            assert(bst(*ll));
                                            assert(bst(*lr));
                                            assert(bst(tu));
                                            {
                                                lemma_doms_eq(*ll);
                                                lemma_doms_eq(*lr);
                                                if kmap(tu).dom().contains(lk) {
                                                    lemma_lt_asym(lk, nkey);
                                                }
                                            }
                                            assert(bst(gn));
                                            assert(bst(r));
                                            assert(kmap(gn) == kmap(*lr).union_prefer_right(
                                                kmap(tu)).insert(nkey, nidx));
                                            assert(kmap(l2g) == kmap(*ll).union_prefer_right(
                                                kmap(*lr)).insert(lk, li));
                                            assert(kmap(l2g) == kmap(tl).insert(key, idx));
                                            assert(tmap(gn) == tmap(*lr).union_prefer_right(
                                                tmap(tu)).insert(nkey, nval));
                                            assert(tmap(l2g) == tmap(*ll).union_prefer_right(
                                                tmap(*lr)).insert(lk, lv));
                                            assert(tmap(l2g) == tmap(tl).insert(key, value));
                                            assert(idxs(l2g) == idxs(*ll).union(
                                                idxs(*lr)).insert(li));
                                            assert forall|x: usize| #[trigger]
                                                idxs(l2g).contains(x) implies !idxs(tu).contains(
                                                x,
                                            ) && x != nidx by {
                                                if x == idx {
                                                } else {
                                                    assert(idxs(tl).contains(x));
                                                }
                                            }
                                            lemma_rot_single_left(
                                                kmap(*ll),
                                                kmap(*lr),
                                                kmap(tu),
                                                kmap(tl),
                                                lk,
                                                li,
                                                nkey,
                                                nidx,
                                                key,
                                                idx,
                                            );
                                            lemma_rot_single_left(
                                                tmap(*ll),
                                                tmap(*lr),
                                                tmap(tu),
                                                tmap(tl),
                                                lk,
                                                lv,
                                                nkey,
                                                nval,
                                                key,
                                                value,
                                            );
                                            assert(kmap(r) == kmap(t0).insert(key, idx));
                                            assert(tmap(r) == tmap(t0).insert(key, value));
                                            assert(uniq(l2g));
                                            assert(uniq(*ll));
                                            assert(uniq(*lr));
                                            assert(uniq(tu));
                                            assert(nrr_children(l2g));
                                            assert(nrr(*ll));
                                            assert(nrr(*lr));
                                            assert(nrr(tu));
                                            assert(red(l2g));
                                            assert(red(*ll));
                                            assert(!red(*lr));
                                            assert(bh_ok(l2g));
                                            assert(bh_ok(*ll));
                                            assert(bh_ok(*lr));
                                            assert(bh_ok(tu));
                                            assert(bh(l2g) == bh(tl));
                                            assert(bh(l2g) == bh(*ll));
                                            assert(bh(*ll) == bh(*lr));
                                            assert(bh(tl) == bh(tu));
                                            assert(bh(gn) == bh(*lr));
                                            assert(bh_ok(gn));
                                            assert(bh(r) == bh(*ll) + 1);
                                            assert(bh(t0) == bh(tl) + 1);
                                            assert(bh_ok(r));
                                            assert(bh(r) == bh(t0));
                                            assert(count(gn) == 1 + count(*lr) + count(tu));
                                            assert(count(l2g) == 1 + count(*ll) + count(*lr));
                                            assert(count(l2g) == count(tl) + 1);
                                            assert(count(t0) == 1 + count(tl) + count(tu));
                                            assert(count(r) == count(t0) + 1);
                                            assert(idxs(r) == idxs(*ll).union(
                                                idxs(gn)).insert(li));
                                            assert(idxs(gn) == idxs(*lr).union(
                                                idxs(tu)).insert(nidx));
                                            assert(idxs(t0) == idxs(tl).union(
                                                idxs(tu)).insert(nidx));
                                            assert forall|x: usize| #[trigger]
                                                idxs(*lr).contains(x) implies idxs(l2g).contains(
                                                x,
                                            ) by {}
                                            assert forall|x: usize| #[trigger]
                                                idxs(*ll).contains(x) implies idxs(l2g).contains(
                                                x,
                                            ) by {}
                                            assert(idxs(l2g).contains(li));
                                            assert(idxs(l2g) =~= idxs(*ll).union(
                                                idxs(*lr)).insert(li));
                                            assert(idxs(r) =~= idxs(l2g).union(
                                                idxs(tu)).insert(nidx));
                                            assert(idxs(t0).insert(idx) =~= idxs(tl).insert(
                                                idx,
                                            ).union(idxs(tu)).insert(nidx));
                                            assert(idxs(r) =~= idxs(t0).insert(idx));
                                            assert(idxs(*lr).disjoint(idxs(tu)));
                                            assert(!idxs(tu).contains(nidx));
                                            assert(!idxs(*lr).contains(nidx));
                                            assert(uniq(gn));
                                            assert(idxs(*ll).disjoint(idxs(gn)));
                                            assert(!idxs(gn).contains(li));
                                            assert(uniq(r));
                                            assert(bh(r) == bh(t0));
                                            assert(bh_ok(r));
                                            assert(!red(tu));
                                            assert(nrr(gn));
                                            assert(nrr(r));
                                        }
                                        r
                                    }
                                },
                            }
                        }
                    },
                    Cmp::Greater => {
                        proof {
                            if kmap(tu).dom().contains(key) {
                                assert(kmap(t0).dom().contains(key));
                            }
                            if kmap(tl).dom().contains(key) {
                                lemma_lt_asym(nkey, key);
                            }
                            lemma_doms_eq(tl);
                            lemma_doms_eq(tu);
                        }
                        let r2 = Self::insert_rec(*right, key, value, idx);
                        let rl = has_red_left(&r2);
                        let rr = has_red_right(&r2);
                        let viol = has_red_root(&r2) && (rl || rr);
                        proof {
                            if viol {
                                assert(red(tu));
                                assert(!nred);
                            }
                        }
                        if !viol {
                            let r = Tree::Node {
                                left,
                                right: Box::new(r2),
                                red: nred,
                                idx: nidx,
                                key: nkey,
                                val: nval,
                            };
                            proof {
                                assert forall|x: T| #[trigger]
                                    kmap(r2).dom().contains(x) implies lt(nkey, x) by {
                                    if x != key {
                                        assert(kmap(tu).dom().contains(x));
                                    }
                                }
                                assert(kmap(r) =~= kmap(t0).insert(key, idx));
                                assert(tmap(r) =~= tmap(t0).insert(key, value));
                                assert(idxs(r) =~= idxs(t0).insert(idx));
                                assert(uniq(r2));
                                assert(uniq(tl));
                                assert forall|x: usize| #[trigger]
                                    idxs(r2).contains(x) implies !idxs(tl).contains(x) && x
                                    != nidx by {
                                    if x == idx {
                                    } else {
                                        assert(idxs(tu).contains(x));
                                    }
                                }
                                assert(idxs(r2).disjoint(idxs(tl)));
                                assert(!idxs(r2).contains(nidx));
                                assert(!idxs(tl).contains(nidx));
                                assert(uniq(r));
                                assert(count(r) == 1 + count(tl) + count(r2));
                                assert(count(t0) == 1 + count(tl) + count(tu));
                                assert(count(r) == count(t0) + 1);
                                assert(bh_ok(r2));
                                assert(bh_ok(tl));
                                assert(bh(r2) == bh(tu));
                                assert(bh(tl) == bh(tu));
                                assert(bh_ok(r));
                                assert(bh(r) == bh(t0));
                                assert(nrr(r2));
                                assert(nrr(tl));
                                assert(nrr_children(r));
                                if !nred {
                                    assert(nrr(r));
                                }
                                if nred {
                                    assert(!red(tl));
                                }
                            }
                            r
                        } else if has_red_root(&left) {
                            // red uncle: recolour, hand the violation upward
                            let u2 = set_black(*left);
                            let r3 = set_black(r2);
                            let ghost r2g = r2;
                            let r = Tree::Node {
                                left: Box::new(u2),
                                right: Box::new(r3),
                                red: true,
                                idx: nidx,
                                key: nkey,
                                val: nval,
                            };
                            proof {
                                assert(kmap(r3) == kmap(r2g));
                                assert(tmap(r3) == tmap(r2g));
                                assert(idxs(r3) == idxs(r2g));
                                assert(kmap(u2) == kmap(tl));
                                assert(tmap(u2) == tmap(tl));
                                assert(idxs(u2) == idxs(tl));
                                assert forall|x: T| #[trigger]
                                    kmap(r3).dom().contains(x) implies lt(nkey, x) by {
                                    if x != key {
                                        assert(kmap(tu).dom().contains(x));
                                    }
                                }
                                assert(kmap(r) =~= kmap(t0).insert(key, idx));
                                assert(tmap(r) =~= tmap(t0).insert(key, value));
                                assert(idxs(r) =~= idxs(t0).insert(idx));
                                assert(bh(r3) == bh(r2g) + 1);
                                assert(bh(u2) == bh(tl) + 1);
                                assert(uniq(r2g));
                                assert(uniq(tl));
                                assert(uniq(r3));
                                assert(uniq(u2));
                                assert forall|x: usize| #[trigger]
                                    idxs(r2g).contains(x) implies !idxs(tl).contains(x) && x
                                    != nidx by {
                                    if x == idx {
                                    } else {
                                        assert(idxs(tu).contains(x));
                                    }
                                }
                                assert(idxs(u2).disjoint(idxs(r3)));
                                assert(!idxs(r3).contains(nidx));
                                assert(!idxs(u2).contains(nidx));
                                assert(uniq(r));
                                assert(count(r3) == count(r2g));
                                assert(count(u2) == count(tl));
                                assert(count(r) == 1 + count(tl) + count(r2g));
                                assert(count(t0) == 1 + count(tl) + count(tu));
                                assert(count(r) == count(t0) + 1);
                                assert(bh_ok(r2g));
                                assert(bh_ok(tl));
                                assert(bh_ok(r3));
                                assert(bh_ok(u2));
                                assert(bh(r2g) == bh(tu));
                                assert(bh(tl) == bh(tu));
                                assert(bh_ok(r));
                                assert(bh(r) == bh(t0));
                                assert(nrr_children(r2g));
                                assert(nrr(tl));
                                assert(bst(tl));
                                assert(nrr(r3));
                                assert(nrr(u2));
                                assert(nrr(r));
                                assert(bst(r3));
                                assert(bst(u2));
                                assert(bst(r));
                            }
                            r
                        } else {
                            // black uncle: one or two rotations settle it
                            let ghost r2g = r2;
                            match r2 {
                                Tree::Leaf => {
                                    proof {
                                        assert(false);
                                    }
                                    Tree::Leaf
                                },
                                Tree::Node {
                                    left: rle,
                                    right: rri,
                                    red: r2red,
                                    idx: ri,
                                    key: rk,
                                    val: rv,
                                } => {
                                    if rl && !rr {
                                        // inner grandchild is red: double rotation
                                        let ghost rlg = *rle;
                                        match *rle {
                                            Tree::Leaf => {
                                                proof {
                                                    assert(false);
                                                }
                                                Tree::Leaf
                                            },
                                            Tree::Node {
                                                left: zl,
                                                right: zr,
                                                red: _zred,
                                                idx: zi,
                                                key: zk,
                                                val: zv,
                                            } => {
                                                let gn = Tree::Node {
                                                    left,
                                                    right: zl,
                                                    red: true,
                                                    idx: nidx,
                                                    key: nkey,
                                                    val: nval,
                                                };
                                                let pr = Tree::Node {
                                                    left: zr,
                                                    right: rri,
                                                    red: true,
                                                    idx: ri,
                                                    key: rk,
                                                    val: rv,
                                                };
                                                let r = Tree::Node {
                                                    left: Box::new(gn),
                                                    right: Box::new(pr),
                                                    red: false,
                                                    idx: zi,
                                                    key: zk,
                                                    val: zv,
                                                };
                                                proof {
                                                    assert(kmap(rlg).dom().contains(zk));
                                                    assert(kmap(r2g).dom().contains(zk));
                                                    assert(lt(zk, rk));
                                                    assert(lt(nkey, zk)) by {
                                                        if zk == key {
                                                        } else {
                                                            assert(kmap(tu).dom().contains(zk));
                                                        }
                                                    }
                                                    assert forall|x: T| #[trigger]
                                                        kmap(pr).dom().contains(x) implies lt(
                                                        zk,
                                                        x,
                                                    ) by {
                                                        if x == rk {
                                                            assert(lt(zk, rk));
                                                        } else if kmap(*zr).dom().contains(x) {
                                                            assert(kmap(rlg).dom().contains(x));
                                                            assert(bst(rlg));
                                                            assert(lt(zk, x));
                                                        } else {
                                                            assert(kmap(*rri).dom().contains(x));
                                                            assert(lt(rk, x));
                                                            lemma_lt_trans(zk, rk, x);
                                                        }
                                                    }
                                                    assert forall|x: T| #[trigger]
                                                        kmap(gn).dom().contains(x) implies lt(
                                                        x,
                                                        zk,
                                                    ) by {
                                                        if x == nkey {
                                                            assert(lt(nkey, zk));
                                                        } else if kmap(*zl).dom().contains(x) {
                                                            assert(kmap(rlg).dom().contains(x));
                                                            assert(bst(rlg));
                                                            assert(lt(x, zk));
                                                        } else {
                                                            assert(kmap(tl).dom().contains(x));
                                                            assert(lt(x, nkey));
                                                            lemma_lt_trans(x, nkey, zk);
                                                        }
                                                    }
                                                    assert forall|x: T| #[trigger]
                                                        kmap(*zr).dom().contains(x) implies lt(
                                                        x,
                                                        rk,
                                                    ) by {
                                                        assert(kmap(rlg).dom().contains(x));
                                                    }
                                                    assert forall|x: T| #[trigger]
                                                        kmap(*zl).dom().contains(x) implies lt(
                                                        nkey,
                                                        x,
                                                    ) by {
                                                        assert(kmap(rlg).dom().contains(x));
                                                        assert(kmap(r2g).dom().contains(x));
                                                        if x == key {
                                                        } else {
                                                            assert(kmap(tu).dom().contains(x));
                                                        }
                                                    }
                                                    assert(bst(r2g));
                                                    assert(bst(rlg));
                                                    assert(bst(*zl));
                                                    assert(bst(*zr));
                                                    assert(bst(*rri));
                                                    assert(bst(tl));
                                                    assert(lt(zk, rk));
                                                    {
                                                        lemma_doms_eq(*zl);
                                                        lemma_doms_eq(*zr);
                                                        lemma_doms_eq(*rri);
                                                        if kmap(tl).dom().contains(zk) {
                                                            lemma_lt_asym(nkey, zk);
                                                        }
                                                        if kmap(*zr).dom().contains(nkey) {
                                                            lemma_lt_asym(nkey, zk);
                                                        }
                                                        if kmap(*rri).dom().contains(nkey) {
                                                            lemma_lt_trans(nkey, zk, rk);
                                                            lemma_lt_asym(nkey, rk);
                                                        }
                                                        if kmap(*rri).dom().contains(zk) {
                                                            lemma_lt_asym(zk, rk);
                                                        }
                                                    }
                                                    assert(bst(gn));
                                                    assert(bst(pr));
                                                    assert(bst(r));
                                                    assert(kmap(gn) == kmap(tl).union_prefer_right(
                                                        kmap(*zl)).insert(nkey, nidx));
                                                    assert(kmap(pr) == kmap(*zr).union_prefer_right(
                                                        kmap(*rri)).insert(rk, ri));
                                                    assert(kmap(rlg) == kmap(*zl).union_prefer_right(
                                                        kmap(*zr)).insert(zk, zi));
                                                    assert(kmap(r2g) == kmap(rlg).union_prefer_right(
                                                        kmap(*rri)).insert(rk, ri));
                                                    assert(kmap(r2g) == kmap(tu).insert(key, idx));
                                                    assert(tmap(gn) == tmap(tl).union_prefer_right(
                                                        tmap(*zl)).insert(nkey, nval));
                                                    assert(tmap(pr) == tmap(*zr).union_prefer_right(
                                                        tmap(*rri)).insert(rk, rv));
                                                    assert(tmap(rlg) == tmap(*zl).union_prefer_right(
                                                        tmap(*zr)).insert(zk, zv));
                                                    assert(tmap(r2g) == tmap(rlg).union_prefer_right(
                                                        tmap(*rri)).insert(rk, rv));
                                                    assert(tmap(r2g) == tmap(tu).insert(key, value));
                                                    lemma_lt_trans(nkey, zk, rk);
                                                    assert(idxs(rlg) == idxs(*zl).union(
                                                        idxs(*zr)).insert(zi));
                                                    assert(idxs(r2g) == idxs(rlg).union(
                                                        idxs(*rri)).insert(ri));
                                                    assert forall|x: usize| #[trigger]
                                                        idxs(r2g).contains(x) implies !idxs(
                                                        tl,
                                                    ).contains(x) && x != nidx by {
                                                        if x == idx {
                                                        } else {
                                                            assert(idxs(tu).contains(x));
                                                        }
                                                    }
                                                    lemma_rot_double_right(
                                                        kmap(tl),
                                                        kmap(*zl),
                                                        kmap(*zr),
                                                        kmap(*rri),
                                                        kmap(tu),
                                                        rk,
                                                        ri,
                                                        zk,
                                                        zi,
                                                        nkey,
                                                        nidx,
                                                        key,
                                                        idx,
                                                    );
                                                    lemma_rot_double_right(
                                                        tmap(tl),
                                                        tmap(*zl),
                                                        tmap(*zr),
                                                        tmap(*rri),
                                                        tmap(tu),
                                                        rk,
                                                        rv,
                                                        zk,
                                                        zv,
                                                        nkey,
                                                        nval,
                                                        key,
                                                        value,
                                                    );
                                                    assert(kmap(r) == kmap(t0).insert(key, idx));
                                                    assert(tmap(r) == tmap(t0).insert(key, value));
                                                    assert(uniq(r2g));
                                                    assert(uniq(rlg));
                                                    assert(uniq(*zl));
                                                    assert(uniq(*zr));
                                                    assert(uniq(*rri));
                                                    assert(uniq(tl));
                                                    assert(nrr_children(r2g));
                                                    assert(nrr(rlg));
                                                    assert(nrr(*zl));
                                                    assert(nrr(*zr));
                                                    assert(nrr(*rri));
                                                    assert(nrr(tl));
                                                    assert(red(r2g));
                                                    assert(red(rlg));
                                                    assert(bh_ok(r2g));
                                                    assert(bh_ok(rlg));
                                                    assert(bh_ok(*zl));
                                                    assert(bh_ok(*zr));
                                                    assert(bh_ok(*rri));
                                                    assert(bh_ok(tl));
                                                    assert(bh(r2g) == bh(tu));
                                                    assert(bh(r2g) == bh(rlg));
                                                    assert(bh(rlg) == bh(*zl));
                                                    assert(bh(rlg) == bh(*rri));
                                                    assert(bh(*zl) == bh(*zr));
                                                    assert(bh(tl) == bh(tu));
                                                    assert(bh(gn) == bh(tl));
                                                    assert(bh(pr) == bh(*zr));
                                                    assert(bh_ok(gn));
                                                    assert(bh_ok(pr));
                                                    assert(bh(r) == bh(gn) + 1);
                                                    assert(bh(t0) == bh(tl) + 1);
                                                    assert(bh_ok(r));
                                                    assert(bh(r) == bh(t0));
                                                    assert(!red(*zl));
                                                    assert(!red(*zr));
                                                    assert(!red(*rri));
                                                    assert(!red(tl));
                                                    assert(nrr(gn));
                                                    assert(nrr(pr));
                                                    assert(nrr(r));
                                                    assert(count(gn) == 1 + count(tl) + count(
                                                        *zl,
                                                    ));
                                                    assert(count(pr) == 1 + count(*zr) + count(
                                                        *rri,
                                                    ));
                                                    assert(count(rlg) == 1 + count(*zl) + count(
                                                        *zr,
                                                    ));
                                                    assert(count(r2g) == 1 + count(rlg) + count(
                                                        *rri,
                                                    ));
                                                    assert(count(r2g) == count(tu) + 1);
                                                    assert(count(t0) == 1 + count(tl) + count(tu));
                                                    assert(count(r) == count(t0) + 1);
                                                    assert(idxs(r) == idxs(gn).union(
                                                        idxs(pr)).insert(zi));
                                                    assert(idxs(gn) == idxs(tl).union(
                                                        idxs(*zl)).insert(nidx));
                                                    assert(idxs(pr) == idxs(*zr).union(
                                                        idxs(*rri)).insert(ri));
                                                    assert(idxs(t0) == idxs(tl).union(
                                                        idxs(tu)).insert(nidx));
                                                    assert forall|x: usize| #[trigger]
                                                        idxs(*zl).contains(x) implies idxs(
                                                        rlg,
                                                    ).contains(x) && idxs(r2g).contains(x) by {}
                                                    assert forall|x: usize| #[trigger]
                                                        idxs(*zr).contains(x) implies idxs(
                                                        rlg,
                                                    ).contains(x) && idxs(r2g).contains(x) by {}
                                                    assert forall|x: usize| #[trigger]
                                                        idxs(*rri).contains(x) implies idxs(
                                                        r2g,
                                                    ).contains(x) by {}
                                                    assert(idxs(r2g).contains(ri));
                                                    assert(idxs(rlg).contains(zi));
                                                    assert(idxs(r2g).contains(zi));
                                                    assert(idxs(r2g) =~= idxs(*zl).union(
                                                        idxs(*zr)).union(idxs(*rri)).insert(
                                                        ri,
                                                    ).insert(zi));
                                                    assert(idxs(r) =~= idxs(tl).union(
                                                        idxs(r2g)).insert(nidx));
                                                    assert(idxs(t0).insert(idx) =~= idxs(
                                                        tl,
                                                    ).union(idxs(tu).insert(idx)).insert(nidx));
                                                    assert(idxs(r) =~= idxs(t0).insert(idx));
                                                    assert(idxs(tl).disjoint(idxs(*zl)));
                                                    assert(!idxs(tl).contains(nidx));
                                                    assert(!idxs(*zl).contains(nidx));
                                                    assert(uniq(gn));
                                                    assert(idxs(*zr).disjoint(idxs(*rri)));
                                                    assert(!idxs(*zr).contains(ri));
                                                    assert(!idxs(*rri).contains(ri));
                                                    assert(uniq(pr));
                                                    assert(idxs(gn).disjoint(idxs(pr)));
                                                    assert(!idxs(gn).contains(zi));
                                                    assert(!idxs(pr).contains(zi));
                                                    assert(uniq(r));
                                                    assert(bh(r) == bh(t0));
                                                    assert(bh_ok(r));
                                                    assert(nrr(r));
                                                }
                                                r
                                            },
                                        }
                                    } else {
                                        // outer grandchild is red: single rotation
                                        proof {
                                            assert(rr);
                                            assert(!rl);
                                        }
                                        let gn = Tree::Node {
                                            left,
                                            right: rle,
                                            red: true,
                                            idx: nidx,
                                            key: nkey,
                                            val: nval,
                                        };
                                        let r = Tree::Node {
                                            left: Box::new(gn),
                                            right: rri,
                                            red: false,
                                            idx: ri,
                                            key: rk,
                                            val: rv,
                                        };
                                        proof {
                                            assert(kmap(r2g).dom().contains(rk));
                                            assert(lt(nkey, rk)) by {
                                                if rk == key {
                                                } else {
                                                    assert(kmap(tu).dom().contains(rk));
                                                }
                                            }
                                            assert forall|x: T| #[trigger]
                                                kmap(gn).dom().contains(x) implies lt(x, rk) by {
                                                if x == nkey {
                                                } else if kmap(*rle).dom().contains(x) {
                                                    assert(lt(x, rk));
                                                } else {
                                                    assert(kmap(tl).dom().contains(x));
                                                    assert(lt(x, nkey));
                                                    lemma_lt_trans(x, nkey, rk);
                                                }
                                            }
                                            assert forall|x: T| #[trigger]
                                                kmap(*rle).dom().contains(x) implies lt(
                                                nkey,
                                                x,
                                            ) by {
                                                assert(kmap(r2g).dom().contains(x));
                                                if x == key {
                                                } else {
                                                    assert(kmap(tu).dom().contains(x));
                                                }
                                            }
                                            assert(bst(r2g));
                                            assert(bst(*rle));
                                            assert(bst(*rri));
                                            assert(bst(tl));
                                            {
                                                lemma_doms_eq(*rle);
                                                lemma_doms_eq(*rri);
                                                if kmap(*rri).dom().contains(nkey) {
                                                    lemma_lt_asym(nkey, rk);
                                                }
                                            }
                                            assert(bst(gn));
                                            assert(bst(r));
                                            assert(kmap(gn) == kmap(tl).union_prefer_right(
                                                kmap(*rle)).insert(nkey, nidx));
                                            assert(kmap(r2g) == kmap(*rle).union_prefer_right(
                                                kmap(*rri)).insert(rk, ri));
                                            assert(kmap(r2g) == kmap(tu).insert(key, idx));
                                            assert(tmap(gn) == tmap(tl).union_prefer_right(
                                                tmap(*rle)).insert(nkey, nval));
                                            assert(tmap(r2g) == tmap(*rle).union_prefer_right(
                                                tmap(*rri)).insert(rk, rv));
                                            assert(tmap(r2g) == tmap(tu).insert(key, value));
                                            assert(idxs(r2g) == idxs(*rle).union(
                                                idxs(*rri)).insert(ri));
                                            assert forall|x: usize| #[trigger]
                                                idxs(r2g).contains(x) implies !idxs(tl).contains(
                                                x,
                                            ) && x != nidx by {
                                                if x == idx {
                                                } else {
                                                    assert(idxs(tu).contains(x));
                                                }
                                            }
                                            lemma_rot_single_right(
                                                kmap(tl),
                                                kmap(*rle),
                                                kmap(*rri),
                                                kmap(tu),
                                                rk,
                                                ri,
                                                nkey,
                                                nidx,
                                                key,
                                                idx,
                                            );
                                            lemma_rot_single_right(
                                                tmap(tl),
                                                tmap(*rle),
                                                tmap(*rri),
                                                tmap(tu),
                                                rk,
                                                rv,
                                                nkey,
                                                nval,
                                                key,
                                                value,
                                            );
                                            assert(kmap(r) == kmap(t0).insert(key, idx));
                                            assert(tmap(r) == tmap(t0).insert(key, value));
                                            assert(uniq(r2g));
                                            assert(uniq(*rle));
                                            assert(uniq(*rri));
                                            assert(uniq(tl));
                                            assert(nrr_children(r2g));
                                            assert(nrr(*rle));
                                            assert(nrr(*rri));
                                            assert(nrr(tl));
                                            assert(red(r2g));
                                            assert(red(*rri));
                                            assert(!red(*rle));
                                            assert(bh_ok(r2g));
                                            assert(bh_ok(*rle));
                                            assert(bh_ok(*rri));
                                            assert(bh_ok(tl));
                                            assert(bh(r2g) == bh(tu));
                                            assert(bh(r2g) == bh(*rle));
                                            assert(bh(*rle) == bh(*rri));
                                            assert(bh(tl) == bh(tu));
                                            assert(bh(gn) == bh(tl));
                                            assert(bh_ok(gn));
                                            assert(bh(r) == bh(gn) + 1);
                                            assert(bh(t0) == bh(tl) + 1);
                                            assert(bh_ok(r));
                                            assert(bh(r) == bh(t0));
                                            assert(nrr(gn));
                                            assert(nrr(r));
                                            assert(count(gn) == 1 + count(tl) + count(*rle));
                                            assert(count(r2g) == 1 + count(*rle) + count(*rri));
                                            assert(count(r2g) == count(tu) + 1);
                                            assert(count(t0) == 1 + count(tl) + count(tu));
                                            assert(count(r) == count(t0) + 1);
                                            assert(idxs(r) == idxs(gn).union(
                                                idxs(*rri)).insert(ri));
                                            assert(idxs(gn) == idxs(tl).union(
                                                idxs(*rle)).insert(nidx));
                                            assert(idxs(t0) == idxs(tl).union(
                                                idxs(tu)).insert(nidx));
                                            assert forall|x: usize| #[trigger]
                                                idxs(*rle).contains(x) implies idxs(r2g).contains(
                                                x,
                                            ) by {}
                                            assert forall|x: usize| #[trigger]
                                                idxs(*rri).contains(x) implies idxs(r2g).contains(
                                                x,
                                            ) by {}
                                            assert(idxs(r2g).contains(ri));
                                            assert(idxs(r2g) =~= idxs(*rle).union(
                                                idxs(*rri)).insert(ri));
                                            assert(idxs(r) =~= idxs(tl).union(
                                                idxs(r2g)).insert(nidx));
                                            assert(idxs(t0).insert(idx) =~= idxs(tl).union(
                                                idxs(tu).insert(idx)).insert(nidx));
                                            assert(idxs(r) =~= idxs(t0).insert(idx));
                                            assert(idxs(tl).disjoint(idxs(*rle)));
                                            assert(!idxs(tl).contains(nidx));
                                            assert(!idxs(*rle).contains(nidx));
                                            assert(uniq(gn));
                                            assert(idxs(gn).disjoint(idxs(*rri)));
                                            assert(!idxs(*rri).contains(ri));
                                            assert(!idxs(gn).contains(ri));
                                            assert(uniq(r));
                                            assert(bh(r) == bh(t0));
                                            assert(bh_ok(r));
                                            assert(nrr(r));
                                        }
                                        r
                                    }
                                },
                            }
                        }
                    },
                }
            },
        }
    }
}


impl<T: TotalOrder, U> TllContainer<T, U> {
    /// Insert `key` with `value`. An existing key has its value replaced in
    /// place: no link, colour or allocation changes, so the host's view of
    /// every node stays intact. A new key is placed by the red-black
    /// insertion algorithm; afterwards the root is black, the colouring and
    /// black-height invariants hold, the rows mirror the new shape, and the
    /// sentinel's root, minimum and maximum links are refreshed. A tree
    /// handed over with a red (but otherwise valid) root is accepted; the
    /// insertion of a fresh key leaves the root black.
    pub fn insert(&mut self, key: T, value: U)
        requires
            old(self).struct_wf(),
            old(self).bst_wf(),
            old(self).color_wf(),
        ensures
            final(self).struct_wf(),
            final(self).bst_wf(),
            final(self).color_wf(),
            final(self)@ == old(self)@.insert(key, value),
            old(self)@.dom().contains(key) ==> final(self).nodes@ == old(self).nodes@
                && final(self).size == old(self).size && same_struct(
                final(self).shape,
                old(self).shape,
            ),
            !old(self)@.dom().contains(key) ==> final(self).rb_wf() && final(self).size == old(
                self,
            ).size + 1 && final(self).nodes@.len() == old(self).nodes@.len() + 1,
            old(self).rb_wf() ==> final(self).rb_wf(),
    {
        proof {
            lemma_doms_eq(self.shape);
        }
        let found = Self::contains_rec(&self.shape, &key);
        if found {
            let mut sh = Tree::Leaf;
            core::mem::swap(&mut sh, &mut self.shape);
            let sh2 = Self::set_val(sh, key, value);
            proof {
                lemma_same_struct(sh2, old(self).shape);
            }
            self.shape = sh2;
            proof {
                assert(rep(self.shape, self.nodes@, 0));
            }
        } else {
            let idx = self.nodes.len();
            self.nodes.push(
                Tll { left: 0, parent: 0, right: 0, is_red: false, is_sentinel: false },
            );
            let mut sh = Tree::Leaf;
            core::mem::swap(&mut sh, &mut self.shape);
            let sh2 = Self::insert_rec(sh, key, value, idx);
            let sh3 = set_black(sh2);
            proof {
                assert(sh2 is Node);
                assert(bst(sh3));
                assert(nrr(sh3));
                assert(bh_ok(sh3));
                assert(!red(sh3));
                assert(kmap(sh3) == kmap(sh2));
                assert(tmap(sh3) == tmap(sh2));
                assert(idxs(sh3) == idxs(sh2));
                assert(uniq(sh3));
                assert(count(sh3) == count(sh2));
                assert forall|i: usize| #[trigger] idxs(sh3).contains(i) implies 1 <= i && i
                    < self.nodes.len() by {
                    if i != idx {
                        assert(idxs(old(self).shape).contains(i));
                    }
                }
            }
            encode(&sh3, &mut self.nodes, 0);
            self.shape = sh3;
            let ghost s_pre = self.nodes@;
            self.update_sentinel_min_max();
            proof {
                assert forall|i: usize| idxs(self.shape).contains(i) implies self.nodes@[i as int]
                    == s_pre[i as int] by {
                    assert(1 <= i);
                }
                lemma_rep_frame(self.shape, s_pre, self.nodes@, 0);
            }
            self.size = self.size + 1;
        }
    }
}


/// Left child of a node; the tree itself when it is a leaf.
pub open spec fn lsub<T, U>(t: Tree<T, U>) -> Tree<T, U> {
    match t {
        Tree::Leaf => t,
        Tree::Node { left, .. } => *left,
    }
}

/// Right child of a node; the tree itself when it is a leaf.
pub open spec fn rsub<T, U>(t: Tree<T, U>) -> Tree<T, U> {
    match t {
        Tree::Leaf => t,
        Tree::Node { right, .. } => *right,
    }
}

/// The subtree rooted at the node with row index `i`.
pub open spec fn subtree_at<T, U>(t: Tree<T, U>, i: usize) -> Tree<T, U>
    decreases t,
{
    match t {
        Tree::Leaf => t,
        Tree::Node { left, right, idx, .. } => if idx == i {
            t
        } else if idxs(*left).contains(i) {
            subtree_at(*left, i)
        } else {
            subtree_at(*right, i)
        },
    }
}

/// Row index of the parent of node `i` within `t`, where the parent of the
/// root of `t` is `p`.
pub open spec fn parent_in<T, U>(t: Tree<T, U>, i: usize, p: usize) -> usize
    decreases t,
{
    match t {
        Tree::Leaf => 0,
        Tree::Node { left, right, idx, .. } => if idx == i {
            p
        } else if idxs(*left).contains(i) {
            parent_in(*left, i, idx)
        } else {
            parent_in(*right, i, idx)
        },
    }
}

/// The local left rotation: the right child comes up, the old root becomes
/// its left child, and the right child's old left subtree moves across.
/// Every node keeps its own colour.
pub open spec fn rot_left_tree<T, U>(st: Tree<T, U>) -> Tree<T, U> {
    match st {
        Tree::Leaf => st,
        Tree::Node { left: a, right: y, red: xr, idx: xi, key: xk, val: xv } => match *y {
            Tree::Leaf => Tree::Node { left: a, right: y, red: xr, idx: xi, key: xk, val: xv },
            Tree::Node { left: b, right: c, red: yr, idx: yi, key: yk, val: yv } => Tree::Node {
                left: Box::new(
                    Tree::Node { left: a, right: b, red: xr, idx: xi, key: xk, val: xv },
                ),
                right: c,
                red: yr,
                idx: yi,
                key: yk,
                val: yv,
            },
        },
    }
}

/// The mirror image: the left child comes up.
pub open spec fn rot_right_tree<T, U>(st: Tree<T, U>) -> Tree<T, U> {
    match st {
        Tree::Leaf => st,
        Tree::Node { left: y, right: c, red: xr, idx: xi, key: xk, val: xv } => match *y {
            Tree::Leaf => Tree::Node { left: y, right: c, red: xr, idx: xi, key: xk, val: xv },
            Tree::Node { left: a, right: b, red: yr, idx: yi, key: yk, val: yv } => Tree::Node {
                left: a,
                right: Box::new(
                    Tree::Node { left: b, right: c, red: xr, idx: xi, key: xk, val: xv },
                ),
                red: yr,
                idx: yi,
                key: yk,
                val: yv,
            },
        },
    }
}

/// The subtree rooted at a present index is a node with that index at its
/// root, and its indices are indices of the whole tree.
proof fn lemma_subtree_at<T, U>(t: Tree<T, U>, i: usize)
    requires
        idxs(t).contains(i),
        uniq(t),
    ensures
        subtree_at(t, i) is Node,
        root_idx(subtree_at(t, i)) == i,
        forall|j: usize| #[trigger]
            idxs(subtree_at(t, i)).contains(j) ==> idxs(t).contains(j),
        uniq(subtree_at(t, i)),
    decreases t,
{
    match t {
        Tree::Leaf => {},
        Tree::Node { left, right, idx, .. } => {
            if idx == i {
            } else if idxs(*left).contains(i) {
                lemma_subtree_at(*left, i);
            } else {
                assert(idxs(*right).contains(i));
                lemma_subtree_at(*right, i);
            }
        },
    }
}

/// What a node's row holds, read off the representation predicate: the row
/// of node `i` carries the root indices of its two subtrees, its parent's
/// index, and its colour.
proof fn lemma_rep_at<T, U>(t: Tree<T, U>, s: Seq<Tll>, p: usize, i: usize)
    requires
        rep(t, s, p),
        uniq(t),
        idxs(t).contains(i),
    ensures
        subtree_at(t, i) is Node,
        1 <= i < s.len(),
        s[i as int] == (Tll {
            left: root_idx(lsub(subtree_at(t, i))),
            parent: parent_in(t, i, p),
            right: root_idx(rsub(subtree_at(t, i))),
            is_red: red(subtree_at(t, i)),
            is_sentinel: false,
        }),
    decreases t,
{
    match t {
        Tree::Leaf => {},
        Tree::Node { left, right, idx, .. } => {
            if idx == i {
            } else if idxs(*left).contains(i) {
                lemma_rep_at(*left, s, idx, i);
            } else {
                assert(idxs(*right).contains(i));
                lemma_rep_at(*right, s, idx, i);
            }
        },
    }
}

/// Does the tree hold a node with row index `i`?
fn has_idx<T, U>(t: &Tree<T, U>, i: usize) -> (r: bool)
    ensures
        r == idxs(*t).contains(i),
    decreases *t,
{
    match t {
        Tree::Leaf => {
            proof {
                assert(!idxs(*t).contains(i));
            }
            false
        },
        Tree::Node { left, right, idx, .. } => {
            if *idx == i {
                true
            } else {
                let inl = has_idx(left, i);
                let inr = has_idx(right, i);
                inl || inr
            }
        },
    }
}


impl<T: TotalOrder, U> TllContainer<T, U> {
    /// Rotate left at the node with row index `x`, anywhere in the tree.
    /// Only the links around `x` and its right child move; every node keeps
    /// its colour, and the symmetric order of keys and values is unchanged.
    fn rot_at_left(t: Tree<T, U>, x: usize) -> (r: Tree<T, U>)
        requires
            uniq(t),
            idxs(t).contains(x),
            1 <= x,
            !idxs(t).contains(0usize),
            rsub(subtree_at(t, x)) is Node,
        ensures
            forall|j: usize|
                #[trigger] idxs(t).contains(j) && j != x && j != root_idx(rsub(subtree_at(t, x)))
                    && j != parent_in(t, x, 0) ==> ({
                    &&& root_idx(lsub(subtree_at(r, j))) == root_idx(lsub(subtree_at(t, j)))
                    &&& root_idx(rsub(subtree_at(r, j))) == root_idx(rsub(subtree_at(t, j)))
                    &&& red(subtree_at(r, j)) == red(subtree_at(t, j))
                }),
            forall|j: usize, q: usize|
                idxs(t).contains(j) && j != x && j != root_idx(rsub(subtree_at(t, x))) && j
                    != root_idx(lsub(rsub(subtree_at(t, x)))) ==> #[trigger] parent_in(r, j, q)
                    == parent_in(t, j, q),
            lsub(rsub(subtree_at(t, x))) is Node ==> (forall|q: usize|
                #[trigger] parent_in(r, root_idx(lsub(rsub(subtree_at(t, x)))), q) == x),
            idxs(r) == idxs(t),
            uniq(r),
            count(r) == count(t),
            key_seq(r) == key_seq(t),
            val_seq(r) == val_seq(t),
            root_idx(r) == (if root_idx(t) == x {
                root_idx(rsub(subtree_at(t, x)))
            } else {
                root_idx(t)
            }),
            subtree_at(r, root_idx(rsub(subtree_at(t, x)))) == rot_left_tree(subtree_at(t, x)),
            forall|q: usize| #[trigger] parent_in(r, root_idx(rsub(subtree_at(t, x))), q)
                == parent_in(t, x, q),
            subtree_at(r, x) == lsub(rot_left_tree(subtree_at(t, x))),
            forall|q: usize| #[trigger] parent_in(r, x, q) == root_idx(rsub(subtree_at(t, x))),
            x != root_idx(t) ==> ({
                let p = parent_in(t, x, 0);
                let yi = root_idx(rsub(subtree_at(t, x)));
                &&& idxs(t).contains(p)
                &&& subtree_at(r, p) is Node
                &&& root_idx(lsub(subtree_at(r, p))) == (if root_idx(lsub(subtree_at(t, p))) == x {
                    yi
                } else {
                    root_idx(lsub(subtree_at(t, p)))
                })
                &&& root_idx(rsub(subtree_at(r, p))) == (if root_idx(rsub(subtree_at(t, p))) == x {
                    yi
                } else {
                    root_idx(rsub(subtree_at(t, p)))
                })
                &&& red(subtree_at(r, p)) == red(subtree_at(t, p))
                &&& (forall|q: usize| #[trigger] parent_in(r, p, q) == parent_in(t, p, q))
            }),
        decreases t,
    {
        match t {
            Tree::Leaf => {
                proof {
                    assert(false);
                }
                Tree::Leaf
            },
            Tree::Node { left, right, red, idx, key, val } => {
                let ghost t0 = t;
                let ghost tl = *left;
                let ghost tu = *right;
                if idx == x {
                    match *right {
                        Tree::Leaf => {
                            proof {
                                assert(false);
                            }
                            Tree::Leaf
                        },
                        Tree::Node { left: b, right: c, red: yr, idx: yi, key: yk, val: yv } => {
                            let xn = Tree::Node { left, right: b, red, idx, key, val };
                            let r = Tree::Node {
                                left: Box::new(xn),
                                right: c,
                                red: yr,
                                idx: yi,
                                key: yk,
                                val: yv,
                            };
                            proof {
                                assert(subtree_at(t0, x) == t0);
                                assert(x != yi);
                                assert(idxs(r) =~= idxs(t0));
                                assert(key_seq(xn) == key_seq(tl) + seq![key] + key_seq(*b));
                                assert(key_seq(r) == key_seq(xn) + seq![yk] + key_seq(*c));
                                assert(key_seq(tu) == key_seq(*b) + seq![yk] + key_seq(*c));
                                assert(key_seq(t0) == key_seq(tl) + seq![key] + key_seq(tu));
                                assert(key_seq(r) =~= key_seq(t0));
                                assert(val_seq(xn) == val_seq(tl) + seq![val] + val_seq(*b));
                                assert(val_seq(r) == val_seq(xn) + seq![yv] + val_seq(*c));
                                assert(val_seq(tu) == val_seq(*b) + seq![yv] + val_seq(*c));
                                assert(val_seq(t0) == val_seq(tl) + seq![val] + val_seq(tu));
                                assert(val_seq(r) =~= val_seq(t0));
                                assert(uniq(tl));
                                assert(uniq(tu));
                                assert(uniq(*b));
                                assert(uniq(*c));
                                assert forall|j: usize| #[trigger]
                                    idxs(*b).contains(j) implies idxs(tu).contains(j) by {}
                                assert forall|j: usize| #[trigger]
                                    idxs(*c).contains(j) implies idxs(tu).contains(j) by {}
                                assert(idxs(tl).disjoint(idxs(*b)));
                                assert(!idxs(*b).contains(x));
                                assert(!idxs(tl).contains(x));
                                assert(uniq(xn));
                                assert(!idxs(xn).contains(yi));
                                assert(!idxs(*c).contains(yi));
                                assert(idxs(xn).disjoint(idxs(*c)));
                                assert(count(xn) == 1 + count(tl) + count(*b));
                                assert(count(r) == 1 + count(xn) + count(*c));
                                assert(count(tu) == 1 + count(*b) + count(*c));
                                assert(count(t0) == 1 + count(tl) + count(tu));
                                assert(count(r) == count(t0));
                                assert(uniq(r));
                                assert(subtree_at(r, yi) == r);
                                assert(r == rot_left_tree(t0));
                                assert(!idxs(xn).contains(yi));
                                assert(idxs(xn).contains(x));
                                assert(subtree_at(r, x) == subtree_at(xn, x));
                                assert(subtree_at(xn, x) == xn);
                                assert(root_idx(rsub(subtree_at(t0, x))) == yi);
                                assert forall|q: usize| #[trigger]
                                    parent_in(r, yi, q) == parent_in(t0, x, q) by {
                                    assert(parent_in(r, yi, q) == q);
                                    assert(parent_in(t0, x, q) == q);
                                }
                                assert forall|q: usize| #[trigger] parent_in(r, x, q) == yi by {
                                    assert(x != yi);
                                    assert(idxs(xn).contains(x));
                                    assert(parent_in(r, x, q) == parent_in(xn, x, yi));
                                    assert(parent_in(xn, x, yi) == yi);
                                }
                                let broot = root_idx(*b);
                                assert(lsub(rsub(subtree_at(t0, x))) == *b);
                                assert forall|j: usize| #[trigger]
                                    idxs(t0).contains(j) && j != x && j != yi && j != parent_in(
                                    t0,
                                    x,
                                    0,
                                ) implies ({
                                    &&& root_idx(lsub(subtree_at(r, j))) == root_idx(
                                        lsub(subtree_at(t0, j)),
                                    )
                                    &&& root_idx(rsub(subtree_at(r, j))) == root_idx(
                                        rsub(subtree_at(t0, j)),
                                    )
                                    &&& crate::structs::tll::red(subtree_at(r, j))
                                        == crate::structs::tll::red(subtree_at(t0, j))
                                }) by {
                                    if idxs(tl).contains(j) {
                                        assert(subtree_at(t0, j) == subtree_at(tl, j));
                                        assert(subtree_at(r, j) == subtree_at(xn, j));
                                        assert(subtree_at(xn, j) == subtree_at(tl, j));
                                    } else if idxs(*b).contains(j) {
                                        assert(subtree_at(t0, j) == subtree_at(tu, j));
                                        assert(subtree_at(tu, j) == subtree_at(*b, j));
                                        assert(subtree_at(r, j) == subtree_at(xn, j));
                                        assert(subtree_at(xn, j) == subtree_at(*b, j));
                                    } else {
                                        assert(idxs(*c).contains(j));
                                        assert(subtree_at(t0, j) == subtree_at(tu, j));
                                        assert(subtree_at(tu, j) == subtree_at(*c, j));
                                        assert(subtree_at(r, j) == subtree_at(*c, j));
                                    }
                                }
                                assert forall|j: usize, q: usize|
                                    idxs(t0).contains(j) && j != x && j != yi && j
                                        != broot implies #[trigger] parent_in(r, j, q)
                                    == parent_in(t0, j, q) by {
                                    if idxs(tl).contains(j) {
                                        assert(parent_in(t0, j, q) == parent_in(tl, j, x));
                                        assert(parent_in(r, j, q) == parent_in(xn, j, yi));
                                        assert(parent_in(xn, j, yi) == parent_in(tl, j, x));
                                    } else if idxs(*b).contains(j) {
                                        assert(parent_in(t0, j, q) == parent_in(tu, j, x));
                                        assert(parent_in(tu, j, x) == parent_in(*b, j, yi));
                                        assert(parent_in(r, j, q) == parent_in(xn, j, yi));
                                        assert(parent_in(xn, j, yi) == parent_in(*b, j, x));
                                        lemma_parent_in_indep(*b, j, yi, x);
                                    } else {
                                        assert(idxs(*c).contains(j));
                                        assert(parent_in(t0, j, q) == parent_in(tu, j, x));
                                        assert(parent_in(tu, j, x) == parent_in(*c, j, yi));
                                        assert(parent_in(r, j, q) == parent_in(*c, j, yi));
                                    }
                                }
                                if *b is Node {
                                    assert forall|q: usize| #[trigger]
                                        parent_in(r, broot, q) == x by {
                                        assert(idxs(*b).contains(broot));
                                        assert(broot != yi);
                                        assert(broot != x);
                                        assert(!idxs(tl).contains(broot));
                                        assert(parent_in(r, broot, q) == parent_in(
                                            xn,
                                            broot,
                                            yi,
                                        ));
                                        assert(parent_in(xn, broot, yi) == parent_in(
                                            *b,
                                            broot,
                                            x,
                                        ));
                                        assert(parent_in(*b, broot, x) == x);
                                    }
                                }
                            }
                            r
                        },
                    }
                } else {
                    let inl = has_idx(&left, x);
                    if inl {
                        let l2 = Self::rot_at_left(*left, x);
                        let r = Tree::Node {
                            left: Box::new(l2),
                            right,
                            red,
                            idx,
                            key,
                            val,
                        };
                        proof {
                            assert(subtree_at(t0, x) == subtree_at(tl, x));
                            let st = subtree_at(tl, x);
                            lemma_subtree_at(tl, x);
                            assert(idxs(st).contains(root_idx(rsub(st)))) by {
                                assert(rsub(st) is Node);
                                assert(idxs(rsub(st)).contains(root_idx(rsub(st))));
                            }
                            let yi = root_idx(rsub(st));
                            assert(idxs(tl).contains(yi));
                            assert(idxs(r) =~= idxs(t0));
                            assert(key_seq(t0) == key_seq(tl) + seq![key] + key_seq(tu));
                            assert(key_seq(r) == key_seq(l2) + seq![key] + key_seq(tu));
                            assert(val_seq(t0) == val_seq(tl) + seq![val] + val_seq(tu));
                            assert(val_seq(r) == val_seq(l2) + seq![val] + val_seq(tu));
                            assert(count(r) == 1 + count(l2) + count(tu));
                            assert(count(t0) == 1 + count(tl) + count(tu));
                            assert(uniq(r));
                            assert(yi != idx);
                            assert(idxs(l2).contains(yi));
                            assert(subtree_at(r, yi) == subtree_at(l2, yi));
                            assert(x != idx);
                            assert(idxs(l2).contains(x));
                            assert(subtree_at(r, x) == subtree_at(l2, x));
                            assert forall|q: usize| #[trigger]
                                parent_in(r, yi, q) == parent_in(t0, x, q) by {
                                assert(parent_in(r, yi, q) == parent_in(l2, yi, idx));
                                assert(parent_in(t0, x, q) == parent_in(tl, x, idx));
                            }
                            assert forall|q: usize| #[trigger] parent_in(r, x, q) == yi by {
                                assert(parent_in(r, x, q) == parent_in(l2, x, idx));
                            }
                            let broot = root_idx(lsub(rsub(st)));
                            assert forall|j: usize| #[trigger]
                                idxs(t0).contains(j) && j != x && j != yi && j != parent_in(
                                t0,
                                x,
                                0,
                            ) implies ({
                                &&& root_idx(lsub(subtree_at(r, j))) == root_idx(
                                    lsub(subtree_at(t0, j)),
                                )
                                &&& root_idx(rsub(subtree_at(r, j))) == root_idx(
                                    rsub(subtree_at(t0, j)),
                                )
                                &&& crate::structs::tll::red(subtree_at(r, j))
                                    == crate::structs::tll::red(subtree_at(t0, j))
                            }) by {
                                if j == idx {
                                    assert(x != root_idx(tl)) by {
                                        if x == root_idx(tl) {
                                            assert(parent_in(t0, x, 0) == parent_in(tl, x, idx));
                                            assert(parent_in(tl, x, idx) == idx);
                                        }
                                    }
                                    assert(subtree_at(r, idx) == r);
                                    assert(subtree_at(t0, idx) == t0);
                                    assert(root_idx(l2) == root_idx(tl));
                                } else if idxs(tl).contains(j) {
                                    if x == root_idx(tl) {
                                        assert(parent_in(tl, x, 0) == 0);
                                        assert(j != 0);
                                    } else {
                                        lemma_parent_in_indep(tl, x, 0, idx);
                                        assert(parent_in(t0, x, 0) == parent_in(tl, x, idx));
                                    }
                                    assert(j != parent_in(tl, x, 0));
                                    assert(subtree_at(r, j) == subtree_at(l2, j));
                                    assert(subtree_at(t0, j) == subtree_at(tl, j));
                                } else {
                                    assert(idxs(tu).contains(j));
                                    assert(subtree_at(r, j) == subtree_at(tu, j));
                                    assert(subtree_at(t0, j) == subtree_at(tu, j));
                                }
                            }
                            assert forall|j: usize, q: usize|
                                idxs(t0).contains(j) && j != x && j != yi && j
                                    != broot implies #[trigger] parent_in(r, j, q) == parent_in(
                                t0,
                                j,
                                q,
                            ) by {
                                if j == idx {
                                    assert(parent_in(r, idx, q) == q);
                                    assert(parent_in(t0, idx, q) == q);
                                } else if idxs(tl).contains(j) {
                                    assert(parent_in(r, j, q) == parent_in(l2, j, idx));
                                    assert(parent_in(t0, j, q) == parent_in(tl, j, idx));
                                    assert(parent_in(l2, j, idx) == parent_in(tl, j, idx));
                                } else {
                                    assert(idxs(tu).contains(j));
                                    assert(parent_in(r, j, q) == parent_in(tu, j, idx));
                                    assert(parent_in(t0, j, q) == parent_in(tu, j, idx));
                                }
                            }
                            if lsub(rsub(st)) is Node {
                                assert forall|q: usize| #[trigger]
                                    parent_in(r, broot, q) == x by {
                                    assert(idxs(lsub(rsub(st))).contains(broot));
                                    assert(idxs(rsub(st)).contains(broot));
                                    assert(idxs(st).contains(broot));
                                    assert(idxs(tl).contains(broot));
                                    assert(broot != idx);
                                    assert(parent_in(r, broot, q) == parent_in(l2, broot, idx));
                                    assert(parent_in(l2, broot, idx) == x);
                                }
                            }
                            if x != root_idx(tl) {
                                let p = parent_in(tl, x, idx);
                                assert(p == parent_in(t0, x, 0));
                                assert(p == parent_in(tl, x, 0)) by {
                                    lemma_parent_in_indep(tl, x, idx, 0);
                                }
                                assert(idxs(tl).contains(p)) by {
                                    lemma_parent_in_member(tl, x, idx);
                                }
                                assert(p != idx);
                                assert(idxs(l2).contains(p));
                                assert(subtree_at(r, p) == subtree_at(l2, p));
                                assert(subtree_at(t0, p) == subtree_at(tl, p));
                                assert forall|q: usize| #[trigger]
                                    parent_in(r, p, q) == parent_in(t0, p, q) by {
                                    assert(parent_in(r, p, q) == parent_in(l2, p, idx));
                                    assert(parent_in(t0, p, q) == parent_in(tl, p, idx));
                                }
                            } else {
                                assert(parent_in(t0, x, 0) == parent_in(tl, x, idx));
                                assert(parent_in(tl, x, idx) == idx);
                                assert(idxs(t0).contains(idx));
                                assert(subtree_at(r, idx) == r);
                                assert(subtree_at(t0, idx) == t0);
                                assert(root_idx(lsub(r)) == root_idx(l2));
                                assert(root_idx(l2) == yi);
                                assert(root_idx(rsub(subtree_at(t0, idx))) != x) by {
                                    if tu is Node {
                                        assert(idxs(tu).contains(root_idx(tu)));
                                    }
                                }
                                assert forall|q: usize| #[trigger]
                                    parent_in(r, idx, q) == parent_in(t0, idx, q) by {
                                    assert(parent_in(r, idx, q) == q);
                                    assert(parent_in(t0, idx, q) == q);
                                }
                            }
                        }
                        r
                    } else {
                        proof {
                            assert(idxs(tu).contains(x));
                        }
                        let r2 = Self::rot_at_left(*right, x);
                        let r = Tree::Node {
                            left,
                            right: Box::new(r2),
                            red,
                            idx,
                            key,
                            val,
                        };
                        proof {
                            assert(subtree_at(t0, x) == subtree_at(tu, x));
                            let st = subtree_at(tu, x);
                            lemma_subtree_at(tu, x);
                            assert(idxs(st).contains(root_idx(rsub(st)))) by {
                                assert(rsub(st) is Node);
                                assert(idxs(rsub(st)).contains(root_idx(rsub(st))));
                            }
                            let yi = root_idx(rsub(st));
                            assert(idxs(tu).contains(yi));
                            assert(idxs(r) =~= idxs(t0));
                            assert(key_seq(t0) == key_seq(tl) + seq![key] + key_seq(tu));
                            assert(key_seq(r) == key_seq(tl) + seq![key] + key_seq(r2));
                            assert(val_seq(t0) == val_seq(tl) + seq![val] + val_seq(tu));
                            assert(val_seq(r) == val_seq(tl) + seq![val] + val_seq(r2));
                            assert(count(r) == 1 + count(tl) + count(r2));
                            assert(count(t0) == 1 + count(tl) + count(tu));
                            assert(uniq(r));
                            assert(yi != idx);
                            assert(!idxs(tl).contains(yi));
                            assert(idxs(r2).contains(yi));
                            assert(subtree_at(r, yi) == subtree_at(r2, yi));
                            assert(x != idx);
                            assert(!idxs(tl).contains(x));
                            assert(idxs(r2).contains(x));
                            assert(subtree_at(r, x) == subtree_at(r2, x));
                            assert forall|q: usize| #[trigger]
                                parent_in(r, yi, q) == parent_in(t0, x, q) by {
                                assert(parent_in(r, yi, q) == parent_in(r2, yi, idx));
                                assert(parent_in(t0, x, q) == parent_in(tu, x, idx));
                            }
                            assert forall|q: usize| #[trigger] parent_in(r, x, q) == yi by {
                                assert(parent_in(r, x, q) == parent_in(r2, x, idx));
                            }
                            let broot = root_idx(lsub(rsub(st)));
                            assert forall|j: usize| #[trigger]
                                idxs(t0).contains(j) && j != x && j != yi && j != parent_in(
                                t0,
                                x,
                                0,
                            ) implies ({
                                &&& root_idx(lsub(subtree_at(r, j))) == root_idx(
                                    lsub(subtree_at(t0, j)),
                                )
                                &&& root_idx(rsub(subtree_at(r, j))) == root_idx(
                                    rsub(subtree_at(t0, j)),
                                )
                                &&& crate::structs::tll::red(subtree_at(r, j))
                                    == crate::structs::tll::red(subtree_at(t0, j))
                            }) by {
                                if j == idx {
                                    assert(x != root_idx(tu)) by {
                                        if x == root_idx(tu) {
                                            assert(parent_in(t0, x, 0) == parent_in(tu, x, idx));
                                            assert(parent_in(tu, x, idx) == idx);
                                        }
                                    }
                                    assert(subtree_at(r, idx) == r);
                                    assert(subtree_at(t0, idx) == t0);
                                    assert(root_idx(r2) == root_idx(tu));
                                } else if idxs(tu).contains(j) {
                                    if x == root_idx(tu) {
                                        assert(parent_in(tu, x, 0) == 0);
                                        assert(j != 0);
                                    } else {
                                        lemma_parent_in_indep(tu, x, 0, idx);
                                        assert(parent_in(t0, x, 0) == parent_in(tu, x, idx));
                                    }
                                    assert(j != parent_in(tu, x, 0));
                                    assert(!idxs(tl).contains(j));
                                    assert(subtree_at(r, j) == subtree_at(r2, j));
                                    assert(subtree_at(t0, j) == subtree_at(tu, j));
                                } else {
                                    assert(idxs(tl).contains(j));
                                    assert(subtree_at(r, j) == subtree_at(tl, j));
                                    assert(subtree_at(t0, j) == subtree_at(tl, j));
                                }
                            }
                            assert forall|j: usize, q: usize|
                                idxs(t0).contains(j) && j != x && j != yi && j
                                    != broot implies #[trigger] parent_in(r, j, q) == parent_in(
                                t0,
                                j,
                                q,
                            ) by {
                                if j == idx {
                                    assert(parent_in(r, idx, q) == q);
                                    assert(parent_in(t0, idx, q) == q);
                                } else if idxs(tu).contains(j) {
                                    assert(!idxs(tl).contains(j));
                                    assert(parent_in(r, j, q) == parent_in(r2, j, idx));
                                    assert(parent_in(t0, j, q) == parent_in(tu, j, idx));
                                    assert(parent_in(r2, j, idx) == parent_in(tu, j, idx));
                                } else {
                                    assert(idxs(tl).contains(j));
                                    assert(parent_in(r, j, q) == parent_in(tl, j, idx));
                                    assert(parent_in(t0, j, q) == parent_in(tl, j, idx));
                                }
                            }
                            if lsub(rsub(st)) is Node {
                                assert forall|q: usize| #[trigger]
                                    parent_in(r, broot, q) == x by {
                                    assert(idxs(lsub(rsub(st))).contains(broot));
                                    assert(idxs(rsub(st)).contains(broot));
                                    assert(idxs(st).contains(broot));
                                    assert(idxs(tu).contains(broot));
                                    assert(broot != idx);
                                    assert(!idxs(tl).contains(broot));
                                    assert(parent_in(r, broot, q) == parent_in(r2, broot, idx));
                                    assert(parent_in(r2, broot, idx) == x);
                                }
                            }
                            if x != root_idx(tu) {
                                let p = parent_in(tu, x, idx);
                                assert(p == parent_in(t0, x, 0));
                                assert(p == parent_in(tu, x, 0)) by {
                                    lemma_parent_in_indep(tu, x, idx, 0);
                                }
                                assert(idxs(tu).contains(p)) by {
                                    lemma_parent_in_member(tu, x, idx);
                                }
                                assert(p != idx);
                                assert(!idxs(tl).contains(p));
                                assert(idxs(r2).contains(p));
                                assert(subtree_at(r, p) == subtree_at(r2, p));
                                assert(subtree_at(t0, p) == subtree_at(tu, p));
                                assert forall|q: usize| #[trigger]
                                    parent_in(r, p, q) == parent_in(t0, p, q) by {
                                    assert(parent_in(r, p, q) == parent_in(r2, p, idx));
                                    assert(parent_in(t0, p, q) == parent_in(tu, p, idx));
                                }
                            } else {
                                assert(parent_in(t0, x, 0) == parent_in(tu, x, idx));
                                assert(parent_in(tu, x, idx) == idx);
                                assert(idxs(t0).contains(idx));
                                assert(subtree_at(r, idx) == r);
                                assert(subtree_at(t0, idx) == t0);
                                assert(root_idx(rsub(r)) == root_idx(r2));
                                assert(root_idx(r2) == yi);
                                assert(root_idx(lsub(subtree_at(t0, idx))) != x) by {
                                    if tl is Node {
                                        assert(idxs(tl).contains(root_idx(tl)));
                                    }
                                }
                                assert forall|q: usize| #[trigger]
                                    parent_in(r, idx, q) == parent_in(t0, idx, q) by {
                                    assert(parent_in(r, idx, q) == q);
                                    assert(parent_in(t0, idx, q) == q);
                                }
                            }
                        }
                        r
                    }
                }
            },
        }
    }
}

/// For a non-root node, the parent index does not depend on what is passed
/// as the parent of the whole tree.
proof fn lemma_parent_in_indep<T, U>(t: Tree<T, U>, i: usize, q1: usize, q2: usize)
    requires
        idxs(t).contains(i),
        root_idx(t) != i,
    ensures
        parent_in(t, i, q1) == parent_in(t, i, q2),
    decreases t,
{
    match t {
        Tree::Leaf => {},
        Tree::Node { left, right, idx, .. } => {
            if idxs(*left).contains(i) {
            } else {
            }
        },
    }
}

/// The parent of a non-root node is itself a node of the tree.
proof fn lemma_parent_in_member<T, U>(t: Tree<T, U>, i: usize, q: usize)
    requires
        idxs(t).contains(i),
        root_idx(t) != i,
        uniq(t),
    ensures
        idxs(t).contains(parent_in(t, i, q)),
    decreases t,
{
    match t {
        Tree::Leaf => {},
        Tree::Node { left, right, idx, .. } => {
            if idxs(*left).contains(i) {
                assert(parent_in(t, i, q) == parent_in(*left, i, idx));
                if root_idx(*left) == i {
                    assert(parent_in(*left, i, idx) == idx);
                } else {
                    lemma_parent_in_member(*left, i, idx);
                }
            } else {
                assert(idxs(*right).contains(i));
                assert(parent_in(t, i, q) == parent_in(*right, i, idx));
                if root_idx(*right) == i {
                    assert(parent_in(*right, i, idx) == idx);
                } else {
                    lemma_parent_in_member(*right, i, idx);
                }
            }
        },
    }
}


impl<T: TotalOrder, U> TllContainer<T, U> {
    /// Mirror of [`Self::rot_at_left`]: rotate right at the node with row
    /// index `x`.
    fn rot_at_right(t: Tree<T, U>, x: usize) -> (r: Tree<T, U>)
        requires
            uniq(t),
            idxs(t).contains(x),
            1 <= x,
            !idxs(t).contains(0usize),
            lsub(subtree_at(t, x)) is Node,
        ensures
            forall|j: usize|
                #[trigger] idxs(t).contains(j) && j != x && j != root_idx(lsub(subtree_at(t, x)))
                    && j != parent_in(t, x, 0) ==> ({
                    &&& root_idx(lsub(subtree_at(r, j))) == root_idx(lsub(subtree_at(t, j)))
                    &&& root_idx(rsub(subtree_at(r, j))) == root_idx(rsub(subtree_at(t, j)))
                    &&& red(subtree_at(r, j)) == red(subtree_at(t, j))
                }),
            forall|j: usize, q: usize|
                idxs(t).contains(j) && j != x && j != root_idx(lsub(subtree_at(t, x))) && j
                    != root_idx(rsub(lsub(subtree_at(t, x)))) ==> #[trigger] parent_in(r, j, q)
                    == parent_in(t, j, q),
            rsub(lsub(subtree_at(t, x))) is Node ==> (forall|q: usize|
                #[trigger] parent_in(r, root_idx(rsub(lsub(subtree_at(t, x)))), q) == x),
            idxs(r) == idxs(t),
            uniq(r),
            count(r) == count(t),
            key_seq(r) == key_seq(t),
            val_seq(r) == val_seq(t),
            root_idx(r) == (if root_idx(t) == x {
                root_idx(lsub(subtree_at(t, x)))
            } else {
                root_idx(t)
            }),
            subtree_at(r, root_idx(lsub(subtree_at(t, x)))) == rot_right_tree(subtree_at(t, x)),
            forall|q: usize| #[trigger] parent_in(r, root_idx(lsub(subtree_at(t, x))), q)
                == parent_in(t, x, q),
            subtree_at(r, x) == rsub(rot_right_tree(subtree_at(t, x))),
            forall|q: usize| #[trigger] parent_in(r, x, q) == root_idx(lsub(subtree_at(t, x))),
            x != root_idx(t) ==> ({
                let p = parent_in(t, x, 0);
                let yi = root_idx(lsub(subtree_at(t, x)));
                &&& idxs(t).contains(p)
                &&& subtree_at(r, p) is Node
                &&& root_idx(lsub(subtree_at(r, p))) == (if root_idx(lsub(subtree_at(t, p))) == x {
                    yi
                } else {
                    root_idx(lsub(subtree_at(t, p)))
                })
                &&& root_idx(rsub(subtree_at(r, p))) == (if root_idx(rsub(subtree_at(t, p))) == x {
                    yi
                } else {
                    root_idx(rsub(subtree_at(t, p)))
                })
                &&& red(subtree_at(r, p)) == red(subtree_at(t, p))
                &&& (forall|q: usize| #[trigger] parent_in(r, p, q) == parent_in(t, p, q))
            }),
        decreases t,
    {
        match t {
            Tree::Leaf => {
                proof {
                    assert(false);
                }
                Tree::Leaf
            },
            Tree::Node { left, right, red, idx, key, val } => {
                let ghost t0 = t;
                let ghost tl = *left;
                let ghost tu = *right;
                if idx == x {
                    match *left {
                        Tree::Leaf => {
                            proof {
                                assert(false);
                            }
                            Tree::Leaf
                        },
                        Tree::Node { left: a, right: b, red: yr, idx: yi, key: yk, val: yv } => {
                            let xn = Tree::Node { left: b, right, red, idx, key, val };
                            let r = Tree::Node {
                                left: a,
                                right: Box::new(xn),
                                red: yr,
                                idx: yi,
                                key: yk,
                                val: yv,
                            };
                            proof {
                                assert(subtree_at(t0, x) == t0);
                                assert(x != yi);
                                assert(idxs(xn) == idxs(*b).union(idxs(tu)).insert(x));
                                assert(idxs(tl) == idxs(*a).union(idxs(*b)).insert(yi));
                                assert(idxs(r) == idxs(*a).union(idxs(xn)).insert(yi));
                                assert(idxs(t0) == idxs(tl).union(idxs(tu)).insert(x));
                                assert(idxs(r) =~= idxs(t0));
                                assert(key_seq(xn) == key_seq(*b) + seq![key] + key_seq(tu));
                                assert(key_seq(r) == key_seq(*a) + seq![yk] + key_seq(xn));
                                assert(key_seq(tl) == key_seq(*a) + seq![yk] + key_seq(*b));
                                assert(key_seq(t0) == key_seq(tl) + seq![key] + key_seq(tu));
                                assert(key_seq(r) =~= key_seq(t0));
                                assert(val_seq(xn) == val_seq(*b) + seq![val] + val_seq(tu));
                                assert(val_seq(r) == val_seq(*a) + seq![yv] + val_seq(xn));
                                assert(val_seq(tl) == val_seq(*a) + seq![yv] + val_seq(*b));
                                assert(val_seq(t0) == val_seq(tl) + seq![val] + val_seq(tu));
                                assert(val_seq(r) =~= val_seq(t0));
                                assert(uniq(tl));
                                assert(uniq(tu));
                                assert(uniq(*a));
                                assert(uniq(*b));
                                assert forall|j: usize| #[trigger]
                                    idxs(*a).contains(j) implies idxs(tl).contains(j) by {}
                                assert forall|j: usize| #[trigger]
                                    idxs(*b).contains(j) implies idxs(tl).contains(j) by {}
                                assert(idxs(*b).disjoint(idxs(tu)));
                                assert(!idxs(*b).contains(x));
                                assert(!idxs(tu).contains(x));
                                assert(uniq(xn));
                                assert(!idxs(xn).contains(yi));
                                assert(!idxs(*a).contains(yi));
                                assert(idxs(*a).disjoint(idxs(xn)));
                                assert(count(xn) == 1 + count(*b) + count(tu));
                                assert(count(r) == 1 + count(*a) + count(xn));
                                assert(count(tl) == 1 + count(*a) + count(*b));
                                assert(count(t0) == 1 + count(tl) + count(tu));
                                assert(count(r) == count(t0));
                                assert(uniq(r));
                                assert(subtree_at(r, yi) == r);
                                assert(r == rot_right_tree(t0));
                                assert(idxs(xn).contains(x));
                                assert(!idxs(*a).contains(x));
                                assert(subtree_at(r, x) == subtree_at(xn, x));
                                assert(subtree_at(xn, x) == xn);
                                assert(root_idx(lsub(subtree_at(t0, x))) == yi);
                                assert forall|q: usize| #[trigger]
                                    parent_in(r, yi, q) == parent_in(t0, x, q) by {
                                    assert(parent_in(r, yi, q) == q);
                                    assert(parent_in(t0, x, q) == q);
                                }
                                assert forall|q: usize| #[trigger] parent_in(r, x, q) == yi by {
                                    assert(x != yi);
                                    assert(idxs(xn).contains(x));
                                    assert(!idxs(*a).contains(x));
                                    assert(parent_in(r, x, q) == parent_in(xn, x, yi));
                                    assert(parent_in(xn, x, yi) == yi);
                                }
                                let broot = root_idx(*b);
                                assert(rsub(lsub(subtree_at(t0, x))) == *b);
                                assert forall|j: usize| #[trigger]
                                    idxs(t0).contains(j) && j != x && j != yi && j != parent_in(
                                    t0,
                                    x,
                                    0,
                                ) implies ({
                                    &&& root_idx(lsub(subtree_at(r, j))) == root_idx(
                                        lsub(subtree_at(t0, j)),
                                    )
                                    &&& root_idx(rsub(subtree_at(r, j))) == root_idx(
                                        rsub(subtree_at(t0, j)),
                                    )
                                    &&& crate::structs::tll::red(subtree_at(r, j))
                                        == crate::structs::tll::red(subtree_at(t0, j))
                                }) by {
                                    if idxs(*a).contains(j) {
                                        assert(subtree_at(t0, j) == subtree_at(tl, j));
                                        assert(subtree_at(tl, j) == subtree_at(*a, j));
                                        assert(subtree_at(r, j) == subtree_at(*a, j));
                                    } else if idxs(*b).contains(j) {
                                        assert(subtree_at(t0, j) == subtree_at(tl, j));
                                        assert(subtree_at(tl, j) == subtree_at(*b, j));
                                        assert(subtree_at(r, j) == subtree_at(xn, j));
                                        assert(subtree_at(xn, j) == subtree_at(*b, j));
                                    } else {
                                        assert(idxs(tu).contains(j));
                                        assert(subtree_at(t0, j) == subtree_at(tu, j));
                                        assert(subtree_at(r, j) == subtree_at(xn, j));
                                        assert(subtree_at(xn, j) == subtree_at(tu, j));
                                    }
                                }
                                assert forall|j: usize, q: usize|
                                    idxs(t0).contains(j) && j != x && j != yi && j
                                        != broot implies #[trigger] parent_in(r, j, q)
                                    == parent_in(t0, j, q) by {
                                    if idxs(*a).contains(j) {
                                        assert(parent_in(t0, j, q) == parent_in(tl, j, x));
                                        assert(parent_in(tl, j, x) == parent_in(*a, j, yi));
                                        assert(parent_in(r, j, q) == parent_in(*a, j, yi));
                                    } else if idxs(*b).contains(j) {
                                        assert(parent_in(t0, j, q) == parent_in(tl, j, x));
                                        assert(parent_in(tl, j, x) == parent_in(*b, j, yi));
                                        assert(parent_in(r, j, q) == parent_in(xn, j, yi));
                                        assert(parent_in(xn, j, yi) == parent_in(*b, j, x));
                                        lemma_parent_in_indep(*b, j, yi, x);
                                    } else {
                                        assert(idxs(tu).contains(j));
                                        assert(parent_in(t0, j, q) == parent_in(tu, j, x));
                                        assert(parent_in(r, j, q) == parent_in(xn, j, yi));
                                        assert(parent_in(xn, j, yi) == parent_in(tu, j, x));
                                    }
                                }
                                if *b is Node {
                                    assert forall|q: usize| #[trigger]
                                        parent_in(r, broot, q) == x by {
                                        assert(idxs(*b).contains(broot));
                                        assert(broot != yi);
                                        assert(broot != x);
                                        assert(!idxs(*a).contains(broot));
                                        assert(parent_in(r, broot, q) == parent_in(
                                            xn,
                                            broot,
                                            yi,
                                        ));
                                        assert(parent_in(xn, broot, yi) == parent_in(
                                            *b,
                                            broot,
                                            x,
                                        ));
                                        assert(parent_in(*b, broot, x) == x);
                                    }
                                }
                            }
                            r
                        },
                    }
                } else {
                    let inl = has_idx(&left, x);
                    if inl {
                        let l2 = Self::rot_at_right(*left, x);
                        let r = Tree::Node { left: Box::new(l2), right, red, idx, key, val };
                        proof {
                            assert(subtree_at(t0, x) == subtree_at(tl, x));
                            let st = subtree_at(tl, x);
                            lemma_subtree_at(tl, x);
                            assert(idxs(st).contains(root_idx(lsub(st)))) by {
                                assert(lsub(st) is Node);
                                assert(idxs(lsub(st)).contains(root_idx(lsub(st))));
                            }
                            let yi = root_idx(lsub(st));
                            assert(idxs(tl).contains(yi));
                            assert(idxs(r) =~= idxs(t0));
                            assert(key_seq(t0) == key_seq(tl) + seq![key] + key_seq(tu));
                            assert(key_seq(r) == key_seq(l2) + seq![key] + key_seq(tu));
                            assert(val_seq(t0) == val_seq(tl) + seq![val] + val_seq(tu));
                            assert(val_seq(r) == val_seq(l2) + seq![val] + val_seq(tu));
                            assert(count(r) == 1 + count(l2) + count(tu));
                            assert(count(t0) == 1 + count(tl) + count(tu));
                            assert(uniq(r));
                            assert(yi != idx);
                            assert(idxs(l2).contains(yi));
                            assert(subtree_at(r, yi) == subtree_at(l2, yi));
                            assert(x != idx);
                            assert(idxs(l2).contains(x));
                            assert(subtree_at(r, x) == subtree_at(l2, x));
                            assert forall|q: usize| #[trigger]
                                parent_in(r, yi, q) == parent_in(t0, x, q) by {
                                assert(parent_in(r, yi, q) == parent_in(l2, yi, idx));
                                assert(parent_in(t0, x, q) == parent_in(tl, x, idx));
                            }
                            assert forall|q: usize| #[trigger] parent_in(r, x, q) == yi by {
                                assert(parent_in(r, x, q) == parent_in(l2, x, idx));
                            }
                            let broot = root_idx(rsub(lsub(st)));
                            assert forall|j: usize| #[trigger]
                                idxs(t0).contains(j) && j != x && j != yi && j != parent_in(
                                t0,
                                x,
                                0,
                            ) implies ({
                                &&& root_idx(lsub(subtree_at(r, j))) == root_idx(
                                    lsub(subtree_at(t0, j)),
                                )
                                &&& root_idx(rsub(subtree_at(r, j))) == root_idx(
                                    rsub(subtree_at(t0, j)),
                                )
                                &&& crate::structs::tll::red(subtree_at(r, j))
                                    == crate::structs::tll::red(subtree_at(t0, j))
                            }) by {
                                if j == idx {
                                    assert(x != root_idx(tl)) by {
                                        if x == root_idx(tl) {
                                            assert(parent_in(t0, x, 0) == parent_in(tl, x, idx));
                                            assert(parent_in(tl, x, idx) == idx);
                                        }
                                    }
                                    assert(subtree_at(r, idx) == r);
                                    assert(subtree_at(t0, idx) == t0);
                                    assert(root_idx(l2) == root_idx(tl));
                                } else if idxs(tl).contains(j) {
                                    if x == root_idx(tl) {
                                        assert(parent_in(tl, x, 0) == 0);
                                        assert(j != 0);
                                    } else {
                                        lemma_parent_in_indep(tl, x, 0, idx);
                                        assert(parent_in(t0, x, 0) == parent_in(tl, x, idx));
                                    }
                                    assert(j != parent_in(tl, x, 0));
                                    assert(subtree_at(r, j) == subtree_at(l2, j));
                                    assert(subtree_at(t0, j) == subtree_at(tl, j));
                                } else {
                                    assert(idxs(tu).contains(j));
                                    assert(subtree_at(r, j) == subtree_at(tu, j));
                                    assert(subtree_at(t0, j) == subtree_at(tu, j));
                                }
                            }
                            assert forall|j: usize, q: usize|
                                idxs(t0).contains(j) && j != x && j != yi && j
                                    != broot implies #[trigger] parent_in(r, j, q) == parent_in(
                                t0,
                                j,
                                q,
                            ) by {
                                if j == idx {
                                    assert(parent_in(r, idx, q) == q);
                                    assert(parent_in(t0, idx, q) == q);
                                } else if idxs(tl).contains(j) {
                                    assert(parent_in(r, j, q) == parent_in(l2, j, idx));
                                    assert(parent_in(t0, j, q) == parent_in(tl, j, idx));
                                    assert(parent_in(l2, j, idx) == parent_in(tl, j, idx));
                                } else {
                                    assert(idxs(tu).contains(j));
                                    assert(parent_in(r, j, q) == parent_in(tu, j, idx));
                                    assert(parent_in(t0, j, q) == parent_in(tu, j, idx));
                                }
                            }
                            if rsub(lsub(st)) is Node {
                                assert forall|q: usize| #[trigger]
                                    parent_in(r, broot, q) == x by {
                                    assert(idxs(rsub(lsub(st))).contains(broot));
                                    assert(idxs(lsub(st)).contains(broot));
                                    assert(idxs(st).contains(broot));
                                    assert(idxs(tl).contains(broot));
                                    assert(broot != idx);
                                    assert(parent_in(r, broot, q) == parent_in(l2, broot, idx));
                                    assert(parent_in(l2, broot, idx) == x);
                                }
                            }
                            if x != root_idx(tl) {
                                let p = parent_in(tl, x, idx);
                                assert(p == parent_in(t0, x, 0));
                                assert(p == parent_in(tl, x, 0)) by {
                                    lemma_parent_in_indep(tl, x, idx, 0);
                                }
                                assert(idxs(tl).contains(p)) by {
                                    lemma_parent_in_member(tl, x, idx);
                                }
                                assert(p != idx);
                                assert(idxs(l2).contains(p));
                                assert(subtree_at(r, p) == subtree_at(l2, p));
                                assert(subtree_at(t0, p) == subtree_at(tl, p));
                                assert forall|q: usize| #[trigger]
                                    parent_in(r, p, q) == parent_in(t0, p, q) by {
                                    assert(parent_in(r, p, q) == parent_in(l2, p, idx));
                                    assert(parent_in(t0, p, q) == parent_in(tl, p, idx));
                                }
                            } else {
                                assert(parent_in(t0, x, 0) == parent_in(tl, x, idx));
                                assert(parent_in(tl, x, idx) == idx);
                                assert(idxs(t0).contains(idx));
                                assert(subtree_at(r, idx) == r);
                                assert(subtree_at(t0, idx) == t0);
                                assert(root_idx(lsub(r)) == root_idx(l2));
                                assert(root_idx(l2) == yi);
                                assert(root_idx(rsub(subtree_at(t0, idx))) != x) by {
                                    if tu is Node {
                                        assert(idxs(tu).contains(root_idx(tu)));
                                    }
                                }
                                assert forall|q: usize| #[trigger]
                                    parent_in(r, idx, q) == parent_in(t0, idx, q) by {
                                    assert(parent_in(r, idx, q) == q);
                                    assert(parent_in(t0, idx, q) == q);
                                }
                            }
                        }
                        r
                    } else {
                        proof {
                            assert(idxs(tu).contains(x));
                        }
                        let r2 = Self::rot_at_right(*right, x);
                        let r = Tree::Node { left, right: Box::new(r2), red, idx, key, val };
                        proof {
                            assert(subtree_at(t0, x) == subtree_at(tu, x));
                            let st = subtree_at(tu, x);
                            lemma_subtree_at(tu, x);
                            assert(idxs(st).contains(root_idx(lsub(st)))) by {
                                assert(lsub(st) is Node);
                                assert(idxs(lsub(st)).contains(root_idx(lsub(st))));
                            }
                            let yi = root_idx(lsub(st));
                            assert(idxs(tu).contains(yi));
                            assert(idxs(r) =~= idxs(t0));
                            assert(key_seq(t0) == key_seq(tl) + seq![key] + key_seq(tu));
                            assert(key_seq(r) == key_seq(tl) + seq![key] + key_seq(r2));
                            assert(val_seq(t0) == val_seq(tl) + seq![val] + val_seq(tu));
                            assert(val_seq(r) == val_seq(tl) + seq![val] + val_seq(r2));
                            assert(count(r) == 1 + count(tl) + count(r2));
                            assert(count(t0) == 1 + count(tl) + count(tu));
                            assert(uniq(r));
                            assert(yi != idx);
                            assert(!idxs(tl).contains(yi));
                            assert(idxs(r2).contains(yi));
                            assert(subtree_at(r, yi) == subtree_at(r2, yi));
                            assert(x != idx);
                            assert(!idxs(tl).contains(x));
                            assert(idxs(r2).contains(x));
                            assert(subtree_at(r, x) == subtree_at(r2, x));
                            assert forall|q: usize| #[trigger]
                                parent_in(r, yi, q) == parent_in(t0, x, q) by {
                                assert(parent_in(r, yi, q) == parent_in(r2, yi, idx));
                                assert(parent_in(t0, x, q) == parent_in(tu, x, idx));
                            }
                            assert forall|q: usize| #[trigger] parent_in(r, x, q) == yi by {
                                assert(parent_in(r, x, q) == parent_in(r2, x, idx));
                            }
                            let broot = root_idx(rsub(lsub(st)));
                            assert forall|j: usize| #[trigger]
                                idxs(t0).contains(j) && j != x && j != yi && j != parent_in(
                                t0,
                                x,
                                0,
                            ) implies ({
                                &&& root_idx(lsub(subtree_at(r, j))) == root_idx(
                                    lsub(subtree_at(t0, j)),
                                )
                                &&& root_idx(rsub(subtree_at(r, j))) == root_idx(
                                    rsub(subtree_at(t0, j)),
                                )
                                &&& crate::structs::tll::red(subtree_at(r, j))
                                    == crate::structs::tll::red(subtree_at(t0, j))
                            }) by {
                                if j == idx {
                                    assert(x != root_idx(tu)) by {
                                        if x == root_idx(tu) {
                                            assert(parent_in(t0, x, 0) == parent_in(tu, x, idx));
                                            assert(parent_in(tu, x, idx) == idx);
                                        }
                                    }
                                    assert(subtree_at(r, idx) == r);
                                    assert(subtree_at(t0, idx) == t0);
                                    assert(root_idx(r2) == root_idx(tu));
                                } else if idxs(tu).contains(j) {
                                    if x == root_idx(tu) {
                                        assert(parent_in(tu, x, 0) == 0);
                                        assert(j != 0);
                                    } else {
                                        lemma_parent_in_indep(tu, x, 0, idx);
                                        assert(parent_in(t0, x, 0) == parent_in(tu, x, idx));
                                    }
                                    assert(j != parent_in(tu, x, 0));
                                    assert(!idxs(tl).contains(j));
                                    assert(subtree_at(r, j) == subtree_at(r2, j));
                                    assert(subtree_at(t0, j) == subtree_at(tu, j));
                                } else {
                                    assert(idxs(tl).contains(j));
                                    assert(subtree_at(r, j) == subtree_at(tl, j));
                                    assert(subtree_at(t0, j) == subtree_at(tl, j));
                                }
                            }
                            assert forall|j: usize, q: usize|
                                idxs(t0).contains(j) && j != x && j != yi && j
                                    != broot implies #[trigger] parent_in(r, j, q) == parent_in(
                                t0,
                                j,
                                q,
                            ) by {
                                if j == idx {
                                    assert(parent_in(r, idx, q) == q);
                                    assert(parent_in(t0, idx, q) == q);
                                } else if idxs(tu).contains(j) {
                                    assert(!idxs(tl).contains(j));
                                    assert(parent_in(r, j, q) == parent_in(r2, j, idx));
                                    assert(parent_in(t0, j, q) == parent_in(tu, j, idx));
                                    assert(parent_in(r2, j, idx) == parent_in(tu, j, idx));
                                } else {
                                    assert(idxs(tl).contains(j));
                                    assert(parent_in(r, j, q) == parent_in(tl, j, idx));
                                    assert(parent_in(t0, j, q) == parent_in(tl, j, idx));
                                }
                            }
                            if rsub(lsub(st)) is Node {
                                assert forall|q: usize| #[trigger]
                                    parent_in(r, broot, q) == x by {
                                    assert(idxs(rsub(lsub(st))).contains(broot));
                                    assert(idxs(lsub(st)).contains(broot));
                                    assert(idxs(st).contains(broot));
                                    assert(idxs(tu).contains(broot));
                                    assert(broot != idx);
                                    assert(!idxs(tl).contains(broot));
                                    assert(parent_in(r, broot, q) == parent_in(r2, broot, idx));
                                    assert(parent_in(r2, broot, idx) == x);
                                }
                            }
                            if x != root_idx(tu) {
                                let p = parent_in(tu, x, idx);
                                assert(p == parent_in(t0, x, 0));
                                assert(p == parent_in(tu, x, 0)) by {
                                    lemma_parent_in_indep(tu, x, idx, 0);
                                }
                                assert(idxs(tu).contains(p)) by {
                                    lemma_parent_in_member(tu, x, idx);
                                }
                                assert(p != idx);
                                assert(!idxs(tl).contains(p));
                                assert(idxs(r2).contains(p));
                                assert(subtree_at(r, p) == subtree_at(r2, p));
                                assert(subtree_at(t0, p) == subtree_at(tu, p));
                                assert forall|q: usize| #[trigger]
                                    parent_in(r, p, q) == parent_in(t0, p, q) by {
                                    assert(parent_in(r, p, q) == parent_in(r2, p, idx));
                                    assert(parent_in(t0, p, q) == parent_in(tu, p, idx));
                                }
                            } else {
                                assert(parent_in(t0, x, 0) == parent_in(tu, x, idx));
                                assert(parent_in(tu, x, idx) == idx);
                                assert(idxs(t0).contains(idx));
                                assert(subtree_at(r, idx) == r);
                                assert(subtree_at(t0, idx) == t0);
                                assert(root_idx(rsub(r)) == root_idx(r2));
                                assert(root_idx(r2) == yi);
                                assert(root_idx(lsub(subtree_at(t0, idx))) != x) by {
                                    if tl is Node {
                                        assert(idxs(tl).contains(root_idx(tl)));
                                    }
                                }
                                assert forall|q: usize| #[trigger]
                                    parent_in(r, idx, q) == parent_in(t0, idx, q) by {
                                    assert(parent_in(r, idx, q) == q);
                                    assert(parent_in(t0, idx, q) == q);
                                }
                            }
                        }
                        r
                    }
                }
            },
        }
    }
}


impl<T: TotalOrder, U> TllContainer<T, U> {
    /// Rotate left at the node in row `x`, whose right child must be a real
    /// node `y`. Afterwards, exactly as the host's tree expects: `y.left`
    /// is `x`, `x.right` is `y`'s old left child, `x.parent` is `y`,
    /// `y.parent` is `x`'s old parent, the old parent's child slot (or the
    /// sentinel's root link, when `x` was the root) points at `y`, colours
    /// travel with their nodes, and the symmetric order of keys is
    /// unchanged.
    pub fn rotate_left(&mut self, x: usize)
        requires
            old(self).struct_wf(),
            idxs(old(self).shape).contains(x),
            rsub(subtree_at(old(self).shape, x)) is Node,
        ensures
            final(self).struct_wf(),
            final(self).size == old(self).size,
            final(self).nodes@.len() == old(self).nodes@.len(),
            key_seq(final(self).shape) == key_seq(old(self).shape),
            val_seq(final(self).shape) == val_seq(old(self).shape),
            idxs(final(self).shape) == idxs(old(self).shape),
            ({
                let s0 = old(self).nodes@;
                let s1 = final(self).nodes@;
                let y = s0[x as int].right;
                let p = s0[x as int].parent;
                &&& s1[y as int].left == x
                &&& s1[x as int].right == s0[y as int].left
                &&& s1[x as int].parent == y
                &&& s1[y as int].parent == p
                &&& s1[x as int].is_red == s0[x as int].is_red
                &&& s1[y as int].is_red == s0[y as int].is_red
                &&& (p == 0 ==> s1[0].parent == y)
                &&& (p != 0 ==> (if s0[p as int].left == x {
                    s1[p as int].left == y
                } else {
                    s1[p as int].right == y
                }))
                &&& (s0[y as int].left != 0 ==> s1[s0[y as int].left as int].parent == x)
                &&& (forall|j: usize|
                    j < s0.len() && j != 0 && j != x && j != y && j != s0[y as int].left && j
                        != p ==> s1[j as int] == s0[j as int])
            }),
    {
        let ghost t0 = self.shape;
        let ghost s0 = self.nodes@;
        proof {
            lemma_rep_at(t0, s0, 0, x);
            lemma_subtree_at(t0, x);
            assert(idxs(t0).contains(x));
            assert(1 <= x);
            assert(!idxs(t0).contains(0usize));
        }
        let mut sh = Tree::Leaf;
        core::mem::swap(&mut sh, &mut self.shape);
        let sh2 = Self::rot_at_left(sh, x);
        proof {
            assert forall|i: usize| #[trigger] idxs(sh2).contains(i) implies 1 <= i && i
                < self.nodes.len() by {
                assert(idxs(t0).contains(i));
            }
        }
        encode(&sh2, &mut self.nodes, 0);
        self.shape = sh2;
        let ghost s_pre = self.nodes@;
        self.update_sentinel_min_max();
        proof {
            assert forall|i: usize| idxs(self.shape).contains(i) implies self.nodes@[i as int]
                == s_pre[i as int] by {
                assert(idxs(t0).contains(i));
            }
            lemma_rep_frame(self.shape, s_pre, self.nodes@, 0);
            let st = subtree_at(t0, x);
            let yi = root_idx(rsub(st));
            assert(s0[x as int].right == yi);
            assert(idxs(rsub(st)).contains(yi));
            assert(idxs(st).contains(yi));
            assert(idxs(t0).contains(yi));
            lemma_rep_at(t0, s0, 0, yi);
            assert(subtree_at(rsub(st), yi) == rsub(st)) by {
                assert(root_idx(rsub(st)) == yi);
            }
            assert(subtree_at(t0, yi) == rsub(st)) by {
                lemma_subtree_nested_right(t0, x, yi);
            }
            let s1 = self.nodes@;
            assert(idxs(sh2).contains(yi));
            assert(idxs(sh2).contains(x));
            lemma_rep_at(sh2, s1, 0, yi);
            lemma_rep_at(sh2, s1, 0, x);
            assert(subtree_at(sh2, yi) == rot_left_tree(st));
            assert(s1[yi as int].left == x);
            assert(s1[yi as int].parent == parent_in(sh2, yi, 0));
            assert(parent_in(sh2, yi, 0) == parent_in(t0, x, 0));
            assert(s0[x as int].parent == parent_in(t0, x, 0));
            assert(s1[x as int].right == root_idx(rsub(subtree_at(sh2, x))));
            assert(subtree_at(sh2, x) == lsub(rot_left_tree(st)));
            assert(s0[yi as int].left == root_idx(lsub(subtree_at(t0, yi))));
            assert(rot_left_tree(st) is Node);
            assert(root_idx(rot_left_tree(st)) == yi);
            assert(lsub(rot_left_tree(st)) is Node);
            assert(root_idx(lsub(rot_left_tree(st))) == x);
            assert(rsub(lsub(rot_left_tree(st))) == lsub(rsub(st)));
            assert(red(lsub(rot_left_tree(st))) == red(st));
            assert(red(rot_left_tree(st)) == red(rsub(st)));
            assert(s1[x as int].is_red == red(subtree_at(sh2, x)));
            assert(s0[x as int].is_red == red(st));
            assert(s1[yi as int].is_red == red(rot_left_tree(st)));
            assert(s0[yi as int].is_red == red(rsub(st)));
            assert(s1[x as int].parent == parent_in(sh2, x, 0));
            assert(parent_in(sh2, x, 0) == yi);
            let p = parent_in(t0, x, 0);
            if x == root_idx(t0) {
                assert(p == 0);
                assert(root_idx(sh2) == yi);
                assert(self.nodes@[0].parent == yi);
            } else {
                lemma_parent_in_member(t0, x, 0);
                assert(idxs(t0).contains(p));
                assert(1 <= p);
                assert(p != 0);
                lemma_rep_at(t0, s0, 0, p);
                lemma_rep_at(sh2, s1, 0, p);
                lemma_parent_child(t0, x, 0);
                assert(s0[p as int].left == root_idx(lsub(subtree_at(t0, p))));
                assert(s0[p as int].right == root_idx(rsub(subtree_at(t0, p))));
                assert(s1[p as int].left == root_idx(lsub(subtree_at(sh2, p))));
                assert(s1[p as int].right == root_idx(rsub(subtree_at(sh2, p))));
            }
            let broot = root_idx(lsub(rsub(st)));
            assert(s0[yi as int].left == broot);
            if broot != 0 {
                assert(lsub(rsub(st)) is Node);
                assert(idxs(lsub(rsub(st))).contains(broot));
                assert(idxs(rsub(st)).contains(broot));
                assert(idxs(st).contains(broot));
                assert(idxs(t0).contains(broot));
                lemma_rep_at(sh2, s1, 0, broot);
                assert(s1[broot as int].parent == parent_in(sh2, broot, 0));
                assert(parent_in(sh2, broot, 0) == x);
            }
            assert forall|j: usize|
                j < s0.len() && j != 0 && j != x && j != yi && j != broot && j != p implies s1[j as int]
                == s0[j as int] by {
                assert(1 <= j < s0.len());
                assert(idxs(t0).contains(j));
                lemma_rep_at(t0, s0, 0, j);
                lemma_rep_at(sh2, s1, 0, j);
            }
            let yy = s0[x as int].right;
            let pp = s0[x as int].parent;
            assert(s1[yy as int].left == x);
            assert(s1[x as int].right == s0[yy as int].left);
            assert(s1[x as int].parent == yy);
            assert(s1[yy as int].parent == pp);
            assert(s1[x as int].is_red == s0[x as int].is_red);
            assert(s1[yy as int].is_red == s0[yy as int].is_red);
            if pp == 0 {
                assert(s1[0].parent == yy);
            }
            if pp != 0 {
                if s0[pp as int].left == x {
                    assert(s1[pp as int].left == yy);
                } else {
                    assert(s1[pp as int].right == yy);
                }
            }
        }
    }

    /// Mirror of [`Self::rotate_left`]: rotate right at the node in row `x`,
    /// whose left child must be a real node.
    pub fn rotate_right(&mut self, x: usize)
        requires
            old(self).struct_wf(),
            idxs(old(self).shape).contains(x),
            lsub(subtree_at(old(self).shape, x)) is Node,
        ensures
            final(self).struct_wf(),
            final(self).size == old(self).size,
            final(self).nodes@.len() == old(self).nodes@.len(),
            key_seq(final(self).shape) == key_seq(old(self).shape),
            val_seq(final(self).shape) == val_seq(old(self).shape),
            idxs(final(self).shape) == idxs(old(self).shape),
            ({
                let s0 = old(self).nodes@;
                let s1 = final(self).nodes@;
                let y = s0[x as int].left;
                let p = s0[x as int].parent;
                &&& s1[y as int].right == x
                &&& s1[x as int].left == s0[y as int].right
                &&& s1[x as int].parent == y
                &&& s1[y as int].parent == p
                &&& s1[x as int].is_red == s0[x as int].is_red
                &&& s1[y as int].is_red == s0[y as int].is_red
                &&& (p == 0 ==> s1[0].parent == y)
                &&& (p != 0 ==> (if s0[p as int].left == x {
                    s1[p as int].left == y
                } else {
                    s1[p as int].right == y
                }))
                &&& (s0[y as int].right != 0 ==> s1[s0[y as int].right as int].parent == x)
                &&& (forall|j: usize|
                    j < s0.len() && j != 0 && j != x && j != y && j != s0[y as int].right && j
                        != p ==> s1[j as int] == s0[j as int])
            }),
    {
        let ghost t0 = self.shape;
        let ghost s0 = self.nodes@;
        proof {
            lemma_rep_at(t0, s0, 0, x);
            lemma_subtree_at(t0, x);
            assert(idxs(t0).contains(x));
            assert(1 <= x);
            assert(!idxs(t0).contains(0usize));
        }
        let mut sh = Tree::Leaf;
        core::mem::swap(&mut sh, &mut self.shape);
        let sh2 = Self::rot_at_right(sh, x);
        proof {
            assert forall|i: usize| #[trigger] idxs(sh2).contains(i) implies 1 <= i && i
                < self.nodes.len() by {
                assert(idxs(t0).contains(i));
            }
        }
        encode(&sh2, &mut self.nodes, 0);
        self.shape = sh2;
        let ghost s_pre = self.nodes@;
        self.update_sentinel_min_max();
        proof {
            assert forall|i: usize| idxs(self.shape).contains(i) implies self.nodes@[i as int]
                == s_pre[i as int] by {
                assert(idxs(t0).contains(i));
            }
            lemma_rep_frame(self.shape, s_pre, self.nodes@, 0);
            let st = subtree_at(t0, x);
            let yi = root_idx(lsub(st));
            assert(s0[x as int].left == yi);
            assert(idxs(lsub(st)).contains(yi));
            assert(idxs(st).contains(yi));
            assert(idxs(t0).contains(yi));
            lemma_rep_at(t0, s0, 0, yi);
            assert(subtree_at(lsub(st), yi) == lsub(st)) by {
                assert(root_idx(lsub(st)) == yi);
            }
            assert(subtree_at(t0, yi) == lsub(st)) by {
                lemma_subtree_nested_left(t0, x, yi);
            }
            let s1 = self.nodes@;
            assert(idxs(sh2).contains(yi));
            assert(idxs(sh2).contains(x));
            lemma_rep_at(sh2, s1, 0, yi);
            lemma_rep_at(sh2, s1, 0, x);
            assert(subtree_at(sh2, yi) == rot_right_tree(st));
            assert(s1[yi as int].right == x);
            assert(s1[yi as int].parent == parent_in(sh2, yi, 0));
            assert(parent_in(sh2, yi, 0) == parent_in(t0, x, 0));
            assert(s0[x as int].parent == parent_in(t0, x, 0));
            assert(s1[x as int].left == root_idx(lsub(subtree_at(sh2, x))));
            assert(subtree_at(sh2, x) == rsub(rot_right_tree(st)));
            assert(s0[yi as int].right == root_idx(rsub(subtree_at(t0, yi))));
            assert(rot_right_tree(st) is Node);
            assert(root_idx(rot_right_tree(st)) == yi);
            assert(rsub(rot_right_tree(st)) is Node);
            assert(root_idx(rsub(rot_right_tree(st))) == x);
            assert(lsub(rsub(rot_right_tree(st))) == rsub(lsub(st)));
            assert(red(rsub(rot_right_tree(st))) == red(st));
            assert(red(rot_right_tree(st)) == red(lsub(st)));
            assert(s1[x as int].is_red == red(subtree_at(sh2, x)));
            assert(s0[x as int].is_red == red(st));
            assert(s1[yi as int].is_red == red(rot_right_tree(st)));
            assert(s0[yi as int].is_red == red(lsub(st)));
            assert(s1[x as int].parent == parent_in(sh2, x, 0));
            assert(parent_in(sh2, x, 0) == yi);
            let p = parent_in(t0, x, 0);
            if x == root_idx(t0) {
                assert(p == 0);
                assert(root_idx(sh2) == yi);
                assert(self.nodes@[0].parent == yi);
            } else {
                lemma_parent_in_member(t0, x, 0);
                assert(idxs(t0).contains(p));
                assert(1 <= p);
                assert(p != 0);
                lemma_rep_at(t0, s0, 0, p);
                lemma_rep_at(sh2, s1, 0, p);
                lemma_parent_child(t0, x, 0);
                assert(s0[p as int].left == root_idx(lsub(subtree_at(t0, p))));
                assert(s0[p as int].right == root_idx(rsub(subtree_at(t0, p))));
                assert(s1[p as int].left == root_idx(lsub(subtree_at(sh2, p))));
                assert(s1[p as int].right == root_idx(rsub(subtree_at(sh2, p))));
            }
            let broot = root_idx(rsub(lsub(st)));
            assert(s0[yi as int].right == broot);
            if broot != 0 {
                assert(rsub(lsub(st)) is Node);
                assert(idxs(rsub(lsub(st))).contains(broot));
                assert(idxs(lsub(st)).contains(broot));
                assert(idxs(st).contains(broot));
                assert(idxs(t0).contains(broot));
                lemma_rep_at(sh2, s1, 0, broot);
                assert(s1[broot as int].parent == parent_in(sh2, broot, 0));
                assert(parent_in(sh2, broot, 0) == x);
            }
            assert forall|j: usize|
                j < s0.len() && j != 0 && j != x && j != yi && j != broot && j != p implies s1[j as int]
                == s0[j as int] by {
                assert(1 <= j < s0.len());
                assert(idxs(t0).contains(j));
                lemma_rep_at(t0, s0, 0, j);
                lemma_rep_at(sh2, s1, 0, j);
            }
            let yy = s0[x as int].left;
            let pp = s0[x as int].parent;
            assert(s1[yy as int].right == x);
            assert(s1[x as int].left == s0[yy as int].right);
            assert(s1[x as int].parent == yy);
            assert(s1[yy as int].parent == pp);
            assert(s1[x as int].is_red == s0[x as int].is_red);
            assert(s1[yy as int].is_red == s0[yy as int].is_red);
            if pp == 0 {
                assert(s1[0].parent == yy);
            }
            if pp != 0 {
                if s0[pp as int].left == x {
                    assert(s1[pp as int].left == yy);
                } else {
                    assert(s1[pp as int].right == yy);
                }
            }
        }
    }
}

/// A non-root node is the root of one of its parent's two subtrees.
proof fn lemma_parent_child<T, U>(t: Tree<T, U>, i: usize, q: usize)
    requires
        uniq(t),
        idxs(t).contains(i),
        root_idx(t) != i,
    ensures
        root_idx(lsub(subtree_at(t, parent_in(t, i, q)))) == i || root_idx(
            rsub(subtree_at(t, parent_in(t, i, q))),
        ) == i,
    decreases t,
{
    match t {
        Tree::Leaf => {},
        Tree::Node { left, right, idx, .. } => {
            if idxs(*left).contains(i) {
                assert(parent_in(t, i, q) == parent_in(*left, i, idx));
                if root_idx(*left) == i {
                    assert(parent_in(*left, i, idx) == idx);
                    assert(subtree_at(t, idx) == t);
                } else {
                    lemma_parent_in_member(*left, i, idx);
                    let p = parent_in(*left, i, idx);
                    assert(idxs(*left).contains(p));
                    assert(p != idx);
                    assert(subtree_at(t, p) == subtree_at(*left, p));
                    lemma_parent_child(*left, i, idx);
                }
            } else {
                assert(idxs(*right).contains(i));
                assert(parent_in(t, i, q) == parent_in(*right, i, idx));
                if root_idx(*right) == i {
                    assert(parent_in(*right, i, idx) == idx);
                    assert(subtree_at(t, idx) == t);
                } else {
                    lemma_parent_in_member(*right, i, idx);
                    let p = parent_in(*right, i, idx);
                    assert(idxs(*right).contains(p));
                    assert(p != idx);
                    assert(!idxs(*left).contains(p));
                    assert(subtree_at(t, p) == subtree_at(*right, p));
                    lemma_parent_child(*right, i, idx);
                }
            }
        },
    }
}

/// A node of the left subtree of `i` is found there by `subtree_at`.
proof fn lemma_subtree_nested_left<T, U>(t: Tree<T, U>, i: usize, j: usize)
    requires
        uniq(t),
        idxs(t).contains(i),
        lsub(subtree_at(t, i)) is Node,
        j == root_idx(lsub(subtree_at(t, i))),
    ensures
        subtree_at(t, j) == lsub(subtree_at(t, i)),
    decreases t,
{
    match t {
        Tree::Leaf => {},
        Tree::Node { left, right, idx, .. } => {
            if idx == i {
                assert(subtree_at(t, i) == t);
                assert(idxs(*left).contains(j)) by {
                    assert(idxs(lsub(t)).contains(j));
                }
                assert(j != idx);
                assert(subtree_at(t, j) == subtree_at(*left, j));
                assert(root_idx(*left) == j);
                assert(subtree_at(*left, j) == *left);
            } else if idxs(*left).contains(i) {
                lemma_subtree_nested_left(*left, i, j);
                lemma_subtree_at(*left, i);
                assert(idxs(subtree_at(*left, i)).contains(j)) by {
                    assert(idxs(lsub(subtree_at(*left, i))).contains(j));
                }
                assert(idxs(*left).contains(j));
                assert(j != idx);
                assert(subtree_at(t, j) == subtree_at(*left, j));
            } else {
                assert(idxs(*right).contains(i));
                lemma_subtree_nested_left(*right, i, j);
                lemma_subtree_at(*right, i);
                assert(idxs(subtree_at(*right, i)).contains(j)) by {
                    assert(idxs(lsub(subtree_at(*right, i))).contains(j));
                }
                assert(idxs(*right).contains(j));
                assert(j != idx);
                assert(!idxs(*left).contains(j));
                assert(subtree_at(t, j) == subtree_at(*right, j));
            }
        },
    }
}

/// A node of the right subtree of `i` is found there by `subtree_at`.
proof fn lemma_subtree_nested_right<T, U>(t: Tree<T, U>, i: usize, j: usize)
    requires
        uniq(t),
        idxs(t).contains(i),
        rsub(subtree_at(t, i)) is Node,
        j == root_idx(rsub(subtree_at(t, i))),
    ensures
        subtree_at(t, j) == rsub(subtree_at(t, i)),
    decreases t,
{
    match t {
        Tree::Leaf => {},
        Tree::Node { left, right, idx, .. } => {
            if idx == i {
                assert(subtree_at(t, i) == t);
                assert(idxs(*right).contains(j)) by {
                    assert(idxs(rsub(t)).contains(j));
                }
                assert(j != idx);
                assert(!idxs(*left).contains(j));
                assert(subtree_at(t, j) == subtree_at(*right, j));
                assert(root_idx(*right) == j);
                assert(subtree_at(*right, j) == *right);
            } else if idxs(*left).contains(i) {
                lemma_subtree_nested_right(*left, i, j);
                lemma_subtree_at(*left, i);
                assert(idxs(subtree_at(*left, i)).contains(j)) by {
                    assert(idxs(rsub(subtree_at(*left, i))).contains(j));
                }
                assert(idxs(*left).contains(j));
                assert(j != idx);
                assert(subtree_at(t, j) == subtree_at(*left, j));
            } else {
                assert(idxs(*right).contains(i));
                lemma_subtree_nested_right(*right, i, j);
                lemma_subtree_at(*right, i);
                assert(idxs(subtree_at(*right, i)).contains(j)) by {
                    assert(idxs(rsub(subtree_at(*right, i))).contains(j));
                }
                assert(idxs(*right).contains(j));
                assert(j != idx);
                assert(!idxs(*left).contains(j));
                assert(subtree_at(t, j) == subtree_at(*right, j));
            }
        },
    }
}



/// Every key in the symmetric ordering is a key of the tree's map.
proof fn lemma_key_seq_in_dom<T, U>(t: Tree<T, U>)
    ensures
        forall|i: int| 0 <= i < key_seq(t).len() ==> kmap(t).dom().contains(#[trigger] key_seq(t)[i]),
        key_seq(t).len() == count(t),
    decreases t,
{
    match t {
        Tree::Leaf => {},
        Tree::Node { left, right, key, .. } => {
            lemma_key_seq_in_dom(*left);
            lemma_key_seq_in_dom(*right);
            assert forall|i: int| 0 <= i < key_seq(t).len() implies kmap(t).dom().contains(
                #[trigger] key_seq(t)[i],
            ) by {
                let ksl = key_seq(*left);
                if i < ksl.len() {
                    assert(key_seq(t)[i] == ksl[i]);
                    assert(kmap(*left).dom().contains(ksl[i]));
                } else if i == ksl.len() {
                    assert(key_seq(t)[i] == key);
                } else {
                    let j = i - ksl.len() - 1;
                    assert(key_seq(t)[i] == key_seq(*right)[j]);
                    assert(kmap(*right).dom().contains(key_seq(*right)[j]));
                }
            }
        },
    }
}

/// The symmetric (in-order) key sequence of an ordered tree is strictly
/// increasing: a later key is always strictly above an earlier one.
pub proof fn lemma_inorder_sorted<T: TotalOrder, U>(t: Tree<T, U>)
    requires
        bst(t),
    ensures
        forall|i: int, j: int|
            0 <= i < j < key_seq(t).len() ==> lt(
                #[trigger] key_seq(t)[i],
                #[trigger] key_seq(t)[j],
            ),
    decreases t,
{
    match t {
        Tree::Leaf => {},
        Tree::Node { left, right, key, .. } => {
            lemma_inorder_sorted(*left);
            lemma_inorder_sorted(*right);
            lemma_key_seq_in_dom(*left);
            lemma_key_seq_in_dom(*right);
            let ksl = key_seq(*left);
            let ksr = key_seq(*right);
            assert forall|i: int, j: int|
                0 <= i < j < key_seq(t).len() implies lt(
                #[trigger] key_seq(t)[i],
                #[trigger] key_seq(t)[j],
            ) by {
                let a = key_seq(t)[i];
                let b = key_seq(t)[j];
                if j < ksl.len() {
                    assert(a == ksl[i] && b == ksl[j]);
                } else if i < ksl.len() && j == ksl.len() {
                    assert(a == ksl[i] && b == key);
                    assert(kmap(*left).dom().contains(a));
                } else if i < ksl.len() {
                    assert(a == ksl[i] && b == ksr[j - ksl.len() - 1]);
                    assert(kmap(*left).dom().contains(a));
                    assert(kmap(*right).dom().contains(b));
                    lemma_lt_trans(a, key, b);
                } else if i == ksl.len() {
                    assert(a == key && b == ksr[j - ksl.len() - 1]);
                    assert(kmap(*right).dom().contains(b));
                } else {
                    assert(a == ksr[i - ksl.len() - 1] && b == ksr[j - ksl.len() - 1]);
                }
            }
        },
    }
}

impl<T: TotalOrder, U> TllContainer<T, U> {
    /// Value stored under `key`, when present.
    pub fn get(&self, key: &T) -> (r: Option<&U>)
        requires
            self.bst_wf(),
        ensures
            match r {
                Some(v) => self@.dom().contains(*key) && *v == self@[*key],
                None => !self@.dom().contains(*key),
            },
    {
        proof {
            lemma_doms_eq(self.shape);
        }
        Self::get_rec(&self.shape, key)
    }

    fn get_rec<'a>(t: &'a Tree<T, U>, key: &T) -> (r: Option<&'a U>)
        requires
            bst(*t),
        ensures
            match r {
                Some(v) => tmap(*t).dom().contains(*key) && *v == tmap(*t)[*key],
                None => !tmap(*t).dom().contains(*key),
            },
        decreases *t,
    {
        match t {
            Tree::Leaf => {
                proof {
                    assert(!tmap(*t).dom().contains(*key));
                }
                Option::None
            },
            Tree::Node { left, right, key: nkey, val, .. } => {
                proof {
                    lemma_doms_eq(**left);
                    lemma_doms_eq(**right);
                }
                match key.compare(nkey) {
                    Cmp::Equal => Option::Some(val),
                    Cmp::Less => {
                        proof {
                            if kmap(**right).dom().contains(*key) {
                                lemma_lt_asym(*key, *nkey);
                            }
                        }
                        Self::get_rec(left, key)
                    },
                    Cmp::Greater => {
                        proof {
                            if kmap(**left).dom().contains(*key) {
                                lemma_lt_asym(*nkey, *key);
                            }
                        }
                        Self::get_rec(right, key)
                    },
                }
            },
        }
    }

    /// The key of the node in row `i`, when such a node exists.
    pub fn key_at(&self, i: usize) -> (r: Option<&T>)
        requires
            self.bst_wf(),
            uniq(self.shape),
        ensures
            match r {
                Some(k) => idxs(self.shape).contains(i) && kmap(self.shape).dom().contains(*k)
                    && kmap(self.shape)[*k] == i,
                None => !idxs(self.shape).contains(i),
            },
    {
        Self::key_at_rec(&self.shape, i)
    }

    fn key_at_rec<'a>(t: &'a Tree<T, U>, i: usize) -> (r: Option<&'a T>)
        requires
            bst(*t),
            uniq(*t),
        ensures
            match r {
                Some(k) => idxs(*t).contains(i) && kmap(*t).dom().contains(*k) && kmap(*t)[*k]
                    == i,
                None => !idxs(*t).contains(i),
            },
        decreases *t,
    {
        match t {
            Tree::Leaf => Option::None,
            Tree::Node { left, right, idx, key, .. } => {
                if *idx == i {
                    Option::Some(key)
                } else {
                    let l = Self::key_at_rec(left, i);
                    match l {
                        Option::Some(k) => {
                            proof {
                                if kmap(**right).dom().contains(*k) {
                                    lemma_lt_asym(*k, *key);
                                }
                            }
                            Option::Some(k)
                        },
                        Option::None => {
                            let r = Self::key_at_rec(right, i);
                            proof {
                                match r {
                                    Option::Some(k2) => {
                                        if kmap(**left).dom().contains(*k2) {
                                            lemma_lt_asym(*key, *k2);
                                        }
                                    },
                                    Option::None => {},
                                }
                            }
                            r
                        },
                    }
                }
            },
        }
    }

    /// In-order list of references to the stored values.
    pub fn get_items(&self) -> (r: Vec<&U>)
        ensures
            r@.map_values(|v: &U| *v) == val_seq(self.shape),
    {
        Self::items_rec(&self.shape)
    }

    fn items_rec<'a>(t: &'a Tree<T, U>) -> (r: Vec<&'a U>)
        ensures
            r@.map_values(|v: &'a U| *v) == val_seq(*t),
        decreases *t,
    {
        match t {
            Tree::Leaf => {
                let r: Vec<&'a U> = Vec::new();
                proof {
                    assert(r@.map_values(|v: &'a U| *v) =~= val_seq(*t));
                }
                r
            },
            Tree::Node { left, right, val, .. } => {
                let mut r = Self::items_rec(left);
                r.push(val);
                let mut rr = Self::items_rec(right);
                r.append(&mut rr);
                proof {
                    assert(r@.map_values(|v: &'a U| *v) =~= val_seq(*t));
                }
                r
            },
        }
    }

    /// The tree's content as a list of key-value reference pairs, in
    /// symmetric key order.
    pub fn get_map(&self) -> (r: Vec<(&T, &U)>)
        ensures
            r@.map_values(|p: (&T, &U)| *p.0) == key_seq(self.shape),
            r@.map_values(|p: (&T, &U)| *p.1) == val_seq(self.shape),
    {
        Self::pairs_rec(&self.shape)
    }

    fn pairs_rec<'a>(t: &'a Tree<T, U>) -> (r: Vec<(&'a T, &'a U)>)
        ensures
            r@.map_values(|p: (&'a T, &'a U)| *p.0) == key_seq(*t),
            r@.map_values(|p: (&'a T, &'a U)| *p.1) == val_seq(*t),
        decreases *t,
    {
        match t {
            Tree::Leaf => {
                let r: Vec<(&'a T, &'a U)> = Vec::new();
                proof {
                    assert(r@.map_values(|p: (&'a T, &'a U)| *p.0) =~= key_seq(*t));
                    assert(r@.map_values(|p: (&'a T, &'a U)| *p.1) =~= val_seq(*t));
                }
                r
            },
            Tree::Node { left, right, key, val, .. } => {
                let mut r = Self::pairs_rec(left);
                r.push((key, val));
                let mut rr = Self::pairs_rec(right);
                r.append(&mut rr);
                proof {
                    assert(r@.map_values(|p: (&'a T, &'a U)| *p.0) =~= key_seq(*t));
                    assert(r@.map_values(|p: (&'a T, &'a U)| *p.1) =~= val_seq(*t));
                }
                r
            },
        }
    }
}


} // verus!
