//! Tabs, panes, and session multiplexing.
//!
//! The multiplexer is generic over the session type `S` that a terminal pane
//! owns; spawning sessions and talking to them is done by the caller.

use std::collections::HashMap;

use vstd::prelude::*;

use crate::schema::{Config, F32Bits, ScrollbackLines};
use crate::text::{clone_opt_string, opt_chars, owned};
use crate::vt::PtyEvent;

verus! {

broadcast use vstd::std_specs::hash::group_hash_axioms;

/// `v` is the 128-bit value of a version-4 (random) UUID of the RFC 4122 /
/// RFC 9562 variant: version nibble 4, variant bits `10`.
pub open spec fn is_v4_uuid(v: u128) -> bool {
    &&& (v >> 76u128) & 0xfu128 == 4
    &&& (v >> 62u128) & 0x3u128 == 2
}

/// A fresh random identifier: `Uuid::new_v4`, as its 128-bit value. The
/// crate sets the version and variant bits of a random number; the other
/// 122 bits are random, and nothing is said of them.
#[verifier::external_body]
fn random_id() -> (r: u128)
    ensures
        is_v4_uuid(r),
{
    uuid::Uuid::new_v4().as_u128()
}

#[derive(Debug, Clone, Copy, PartialEq, Eq, Hash, Structural)]
pub struct TabId(pub u128);

#[derive(Debug, Clone, Copy, PartialEq, Eq, Hash, Structural)]
pub struct PaneId(pub u128);

impl TabId {
    /// A new random tab identifier (a version-4 UUID).
    pub fn new() -> (id: Self)
        ensures
            is_v4_uuid(id.0),
    {
        TabId(random_id())
    }
}

impl Default for TabId {
    fn default() -> Self {
        Self::new()
    }
}

impl PaneId {
    /// A new random pane identifier (a version-4 UUID).
    pub fn new() -> (id: Self)
        ensures
            is_v4_uuid(id.0),
    {
        PaneId(random_id())
    }
}

impl Default for PaneId {
    fn default() -> Self {
        Self::new()
    }
}

#[derive(Debug, Clone, Copy, PartialEq, Eq, Structural)]
pub enum SplitDirection {
    /// Side-by-side (vertical divider).
    Horizontal,
    /// Stacked (horizontal divider).
    Vertical,
}

/// Binary tree of splits with panes at the leaves.
#[derive(Debug)]
pub enum PaneNode {
    Leaf(PaneId),
    Split {
        direction: SplitDirection,
        /// Share of the first child.
        ratio: F32Bits,
        first: Box<PaneNode>,
        second: Box<PaneNode>,
    },
}

/// 0.5
pub open spec fn half() -> F32Bits {
    F32Bits(0x3f000000)
}

/// The panes of a tree, left to right.
pub open spec fn leaves(n: PaneNode) -> Seq<PaneId>
    decreases n,
{
    match n {
        PaneNode::Leaf(id) => seq![id],
        PaneNode::Split { first, second, .. } => leaves(*first) + leaves(*second),
    }
}

/// The tree with the first leaf `target` (left to right) replaced by an
/// even split of `target` and `new_leaf`.
pub open spec fn split_first(n: PaneNode, target: PaneId, new_leaf: PaneId, d: SplitDirection) -> PaneNode
    decreases n,
{
    match n {
        PaneNode::Leaf(id) => if id == target {
            PaneNode::Split {
                direction: d,
                ratio: half(),
                first: Box::new(PaneNode::Leaf(target)),
                second: Box::new(PaneNode::Leaf(new_leaf)),
            }
        } else {
            n
        },
        PaneNode::Split { direction, ratio, first, second } => if leaves(*first).contains(target) {
            PaneNode::Split {
                direction,
                ratio,
                first: Box::new(split_first(*first, target, new_leaf, d)),
                second,
            }
        } else {
            PaneNode::Split {
                direction,
                ratio,
                first,
                second: Box::new(split_first(*second, target, new_leaf, d)),
            }
        },
    }
}

/// Position of the first `x` in `s`.
pub open spec fn first_index(s: Seq<PaneId>, x: PaneId) -> int
    decreases s.len(),
{
    if s.len() == 0 || s[0] == x {
        0
    } else {
        1 + first_index(s.drop_first(), x)
    }
}

/// Splitting inserts `new_leaf` right after the first `target`.
pub proof fn lemma_split_first_leaves(n: PaneNode, target: PaneId, new_leaf: PaneId, d: SplitDirection)
    requires
        leaves(n).contains(target),
    ensures
        ({
            let l = leaves(n);
            let i = first_index(l, target);
            &&& 0 <= i < l.len()
            &&& l[i] == target
            &&& leaves(split_first(n, target, new_leaf, d)) == l.take(i + 1) + seq![new_leaf] + l.skip(
                i + 1,
            )
        }),
    decreases n,
{
    match n {
        PaneNode::Leaf(id) => {
            assert(leaves(n)[0] == target);
            assert(id == target);
            assert(leaves(PaneNode::Leaf(target)) == seq![target]);
            assert(leaves(PaneNode::Leaf(new_leaf)) == seq![new_leaf]);
            assert(leaves(split_first(n, target, new_leaf, d)) == seq![target] + seq![new_leaf]);
            assert(leaves(split_first(n, target, new_leaf, d)) =~= leaves(n).take(1) + seq![new_leaf]
                + leaves(n).skip(1));
        },
        PaneNode::Split { direction, ratio, first, second } => {
            let lf = leaves(*first);
            let ls = leaves(*second);
            let l = lf + ls;
            assert(leaves(n) == l);
            if lf.contains(target) {
                lemma_split_first_leaves(*first, target, new_leaf, d);
                lemma_first_index_concat(lf, ls, target);
                let i = first_index(lf, target);
                assert(leaves(split_first(n, target, new_leaf, d)) =~= l.take(i + 1) + seq![new_leaf]
                    + l.skip(i + 1));
            } else {
                let w = choose|w: int| 0 <= w < l.len() && l[w] == target;
                assert(ls[w - lf.len()] == target);
                assert(ls.contains(target));
                lemma_split_first_leaves(*second, target, new_leaf, d);
                lemma_first_index_concat(lf, ls, target);
                let i = first_index(ls, target);
                assert(leaves(split_first(n, target, new_leaf, d)) =~= l.take(lf.len() + i + 1)
                    + seq![new_leaf] + l.skip(lf.len() + i + 1));
            }
        },
    }
}

/// First positions in a concatenation.
pub proof fn lemma_first_index_concat(a: Seq<PaneId>, b: Seq<PaneId>, x: PaneId)
    ensures
        a.contains(x) ==> first_index(a + b, x) == first_index(a, x),
        !a.contains(x) ==> first_index(a + b, x) == a.len() + first_index(b, x),
    decreases a.len(),
{
    if a.len() > 0 {
        assert((a + b).drop_first() =~= a.drop_first() + b);
        if a[0] != x {
            lemma_first_index_concat(a.drop_first(), b, x);
            if a.contains(x) {
                let w = choose|w: int| 0 <= w < a.len() && a[w] == x;
                assert(a.drop_first()[w - 1] == x);
            }
            if a.drop_first().contains(x) {
                let w = choose|w: int| 0 <= w < a.drop_first().len() && a.drop_first()[w] == x;
                assert(a[w + 1] == x);
            }
        }
    } else {
        assert(a + b =~= b);
    }
}

/// First position facts.
pub proof fn lemma_first_index(s: Seq<PaneId>, x: PaneId)
    ensures
        s.contains(x) ==> 0 <= first_index(s, x) < s.len() && s[first_index(s, x)] == x && forall|
            j: int,
        | 0 <= j < first_index(s, x) ==> s[j] != x,
        !s.contains(x) ==> first_index(s, x) == s.len(),
    decreases s.len(),
{
    if s.len() > 0 && s[0] != x {
        lemma_first_index(s.drop_first(), x);
        if s.contains(x) {
            let w = choose|w: int| 0 <= w < s.len() && s[w] == x;
            assert(s.drop_first()[w - 1] == x);
        }
        if s.drop_first().contains(x) {
            let w = choose|w: int| 0 <= w < s.drop_first().len() && s.drop_first()[w] == x;
            assert(s[w + 1] == x);
        }
        assert forall|j: int| 0 <= j < first_index(s, x) implies s[j] != x by {
            if j > 0 {
                assert(s[j] == s.drop_first()[j - 1]);
            }
        }
    } else if s.len() > 0 {
        assert(s[0] == x);
    }
}

/// The panes of `node`, left to right.
pub fn collect_leaves(node: &PaneNode) -> (v: Vec<PaneId>)
    ensures
        v@ == leaves(*node),
    decreases node,
{
    match node {
        PaneNode::Leaf(id) => {
            let v = vec![*id];
            proof {
                assert(v@ =~= seq![*id]);
            }
            v
        },
        PaneNode::Split { first, second, .. } => {
            let mut v = collect_leaves(first);
            let mut w = collect_leaves(second);
            v.append(&mut w);
            v
        },
    }
}

/// Split the first leaf `target` of `node`; `false` (and `node` back) when
/// there is none.
fn split_leaf(node: PaneNode, target: PaneId, new_leaf: PaneId, direction: SplitDirection) -> (r: (PaneNode, bool))
    ensures
        r.1 == leaves(node).contains(target),
        r.1 ==> r.0 == split_first(node, target, new_leaf, direction),
        !r.1 ==> r.0 == node,
    decreases node,
{
    match node {
        PaneNode::Leaf(id) => {
            if id == target {
                proof {
                    assert(leaves(node)[0] == target);
                }
                (
                    PaneNode::Split {
                        direction,
                        ratio: F32Bits(0x3f000000),
                        first: Box::new(PaneNode::Leaf(target)),
                        second: Box::new(PaneNode::Leaf(new_leaf)),
                    },
                    true,
                )
            } else {
                proof {
                    assert(!leaves(node).contains(target)) by {
                        if leaves(node).contains(target) {
                            let w = choose|w: int| 0 <= w < leaves(node).len() && leaves(node)[w] == target;
                            assert(w == 0);
                        }
                    }
                }
                (node, false)
            }
        },
        PaneNode::Split { direction: d, ratio, first, second } => {
            let ghost lf = leaves(*first);
            let ghost ls = leaves(*second);
            let (f2, ok) = split_leaf(*first, target, new_leaf, direction);
            if ok {
                proof {
                    let w = choose|w: int| 0 <= w < lf.len() && lf[w] == target;
                    assert((lf + ls)[w] == target);
                }
                (PaneNode::Split { direction: d, ratio, first: Box::new(f2), second }, true)
            } else {
                let (s2, ok2) = split_leaf(*second, target, new_leaf, direction);
                proof {
                    let l = lf + ls;
                    if ok2 {
                        let w = choose|w: int| 0 <= w < ls.len() && ls[w] == target;
                        assert(l[lf.len() + w] == target);
                    }
                    if l.contains(target) {
                        let w = choose|w: int| 0 <= w < l.len() && l[w] == target;
                        if w < lf.len() {
                            assert(lf[w] == target);
                        } else {
                            assert(ls[w - lf.len()] == target);
                        }
                    }
                }
                (
                    PaneNode::Split { direction: d, ratio, first: Box::new(f2), second: Box::new(s2) },
                    ok2,
                )
            }
        },
    }
}

/// The tree with the first leaf `target` (left to right) closed: its
/// sibling takes the place of the split that held both. `None` when the tree
/// is that one leaf.
pub open spec fn tree_without(n: PaneNode, target: PaneId) -> Option<PaneNode>
    decreases n,
{
    match n {
        PaneNode::Leaf(id) => if id == target {
            None
        } else {
            Some(n)
        },
        PaneNode::Split { direction, ratio, first, second } => if leaves(*first).contains(target) {
            match tree_without(*first, target) {
                None => Some(*second),
                Some(f) => Some(PaneNode::Split { direction, ratio, first: Box::new(f), second }),
            }
        } else {
            match tree_without(*second, target) {
                None => Some(*first),
                Some(s) => Some(PaneNode::Split { direction, ratio, first, second: Box::new(s) }),
            }
        },
    }
}

/// The pane that focus passes to when the first leaf `target` is closed:
/// the one of its sibling next to it (the sibling's first pane when
/// `target` came first, its last when `target` came second).
pub open spec fn heir(n: PaneNode, target: PaneId) -> Option<PaneId>
    decreases n,
{
    match n {
        PaneNode::Leaf(_) => None,
        PaneNode::Split { first, second, .. } => if leaves(*first).contains(target) {
            match tree_without(*first, target) {
                None => Some(leaves(*second)[0]),
                Some(_) => heir(*first, target),
            }
        } else {
            match tree_without(*second, target) {
                None => Some(leaves(*first).last()),
                Some(_) => heir(*second, target),
            }
        },
    }
}

/// Every tree has a pane.
pub proof fn lemma_leaves_nonempty(n: PaneNode)
    ensures
        leaves(n).len() >= 1,
    decreases n,
{
    if let PaneNode::Split { first, second, .. } = n {
        lemma_leaves_nonempty(*first);
    }
}

/// Closing a pane of a tree takes exactly that pane out of the left-to-right
/// order, and the pane that focus passes to is still there; only a tree that
/// is the one pane closes entirely.
pub proof fn lemma_tree_without(n: PaneNode, target: PaneId)
    requires
        leaves(n).contains(target),
    ensures
        tree_without(n, target) is None <==> n == PaneNode::Leaf(target),
        tree_without(n, target) matches Some(m) ==> {
            &&& leaves(m) == leaves(n).remove(first_index(leaves(n), target))
            &&& heir(n, target) matches Some(h) && leaves(m).contains(h)
        },
    decreases n,
{
    lemma_first_index(leaves(n), target);
    match n {
        PaneNode::Leaf(id) => {
            assert(leaves(n)[0] == target);
        },
        PaneNode::Split { direction, ratio, first, second } => {
            let lf = leaves(*first);
            let ls = leaves(*second);
            lemma_leaves_nonempty(*first);
            lemma_leaves_nonempty(*second);
            lemma_first_index_concat(lf, ls, target);
            if lf.contains(target) {
                lemma_tree_without(*first, target);
                lemma_first_index(lf, target);
                match tree_without(*first, target) {
                    None => {
                        assert(lf =~= seq![target]);
                        assert(ls =~= (lf + ls).remove(0));
                        assert(ls.contains(ls[0]));
                    },
                    Some(f) => {
                        let i = first_index(lf, target);
                        assert(leaves(f) + ls =~= (lf + ls).remove(i));
                        let h = heir(*first, target)->0;
                        let w = choose|w: int| 0 <= w < leaves(f).len() && leaves(f)[w] == h;
                        assert((leaves(f) + ls)[w] == h);
                    },
                }
            } else {
                let l = lf + ls;
                let w = choose|w: int| 0 <= w < l.len() && l[w] == target;
                assert(ls[w - lf.len()] == target);
                lemma_tree_without(*second, target);
                lemma_first_index(ls, target);
                match tree_without(*second, target) {
                    None => {
                        assert(ls =~= seq![target]);
                        assert(lf =~= l.remove(lf.len() as int));
                        assert(lf.contains(lf[lf.len() - 1]));
                    },
                    Some(s2) => {
                        let i = first_index(ls, target);
                        assert(lf + leaves(s2) =~= l.remove(lf.len() + i));
                        let h = heir(*second, target)->0;
                        let v = choose|v: int| 0 <= v < leaves(s2).len() && leaves(s2)[v] == h;
                        assert((lf + leaves(s2))[lf.len() + v] == h);
                    },
                }
            }
        },
    }
}

/// Whether pane `target` is a leaf of `node`.
fn tree_contains(node: &PaneNode, target: PaneId) -> (b: bool)
    ensures
        b == leaves(*node).contains(target),
    decreases node,
{
    match node {
        PaneNode::Leaf(id) => {
            proof {
                if leaves(*node).contains(target) {
                    let w = choose|w: int| 0 <= w < leaves(*node).len() && leaves(*node)[w] == target;
                    assert(w == 0);
                }
                if *id == target {
                    assert(leaves(*node)[0] == target);
                }
            }
            *id == target
        },
        PaneNode::Split { first, second, .. } => {
            let in_first = tree_contains(first, target);
            let in_second = tree_contains(second, target);
            proof {
                let lf = leaves(**first);
                let ls = leaves(**second);
                let l = lf + ls;
                if in_first {
                    let w = choose|w: int| 0 <= w < lf.len() && lf[w] == target;
                    assert(l[w] == target);
                }
                if in_second {
                    let w = choose|w: int| 0 <= w < ls.len() && ls[w] == target;
                    assert(l[lf.len() + w] == target);
                }
                if l.contains(target) {
                    let w = choose|w: int| 0 <= w < l.len() && l[w] == target;
                    if w < lf.len() {
                        assert(lf[w] == target);
                    } else {
                        assert(ls[w - lf.len()] == target);
                    }
                }
            }
            in_first || in_second
        },
    }
}

/// The first pane of `node`, left to right.
fn first_leaf(node: &PaneNode) -> (p: PaneId)
    ensures
        leaves(*node).len() >= 1,
        p == leaves(*node)[0],
    decreases node,
{
    match node {
        PaneNode::Leaf(id) => *id,
        PaneNode::Split { first, second, .. } => {
            proof {
                lemma_leaves_nonempty(**second);
            }
            first_leaf(first)
        },
    }
}

/// The last pane of `node`, left to right.
fn last_leaf(node: &PaneNode) -> (p: PaneId)
    ensures
        leaves(*node).len() >= 1,
        p == leaves(*node).last(),
    decreases node,
{
    match node {
        PaneNode::Leaf(id) => *id,
        PaneNode::Split { first, second, .. } => {
            proof {
                lemma_leaves_nonempty(**first);
            }
            last_leaf(second)
        },
    }
}

/// Close the first leaf `target` of `node`: the tree that is left, if any,
/// and the pane that focus passes to.
fn remove_leaf(node: PaneNode, target: PaneId) -> (r: (Option<PaneNode>, Option<PaneId>))
    ensures
        r.0 == tree_without(node, target),
        r.1 == heir(node, target),
    decreases node,
{
    match node {
        PaneNode::Leaf(id) => {
            if id == target {
                (None, None)
            } else {
                (Some(node), None)
            }
        },
        PaneNode::Split { direction, ratio, first, second } => {
            if tree_contains(&first, target) {
                let (f, h) = remove_leaf(*first, target);
                match f {
                    None => {
                        let h2 = first_leaf(&second);
                        (Some(*second), Some(h2))
                    },
                    Some(f2) => (Some(PaneNode::Split { direction, ratio, first: Box::new(f2), second }), h),
                }
            } else {
                let (s, h) = remove_leaf(*second, target);
                match s {
                    None => {
                        let h2 = last_leaf(&first);
                        (Some(*first), Some(h2))
                    },
                    Some(s2) => (Some(PaneNode::Split { direction, ratio, first, second: Box::new(s2) }), h),
                }
            }
        },
    }
}

/// Errors of pane operations.
#[derive(Debug, Clone, Copy, PartialEq, Eq, Structural)]
pub enum MuxError {
    /// The pane to split is not in the tree.
    LeafNotFound,
    /// There is no active tab.
    NoActiveTab,
}

/// Split the first leaf `target` of `node` into `target` and `new_leaf`.
pub fn replace_leaf_with_split(
    node: &mut PaneNode,
    target: PaneId,
    new_leaf: PaneId,
    direction: SplitDirection,
) -> (r: Result<(), MuxError>)
    ensures
        r is Ok <==> leaves(*old(node)).contains(target),
        r is Ok ==> *final(node) == split_first(*old(node), target, new_leaf, direction),
        r is Err ==> r == Err::<(), MuxError>(MuxError::LeafNotFound) && *final(node) == *old(node),
{
    let mut taken = PaneNode::Leaf(target);
    std::mem::swap(&mut taken, node);
    let (n2, ok) = split_leaf(taken, target, new_leaf, direction);
    *node = n2;
    if ok {
        Ok(())
    } else {
        Err(MuxError::LeafNotFound)
    }
}

#[derive(Debug, Clone, Copy, PartialEq, Eq, Structural)]
pub enum PaneKind {
    Terminal,
    AiChat,
}

pub struct Pane<S> {
    pub id: PaneId,
    pub kind: PaneKind,
    pub session: Option<S>,
}

pub struct Tab {
    pub id: TabId,
    pub title_override: Option<String>,
    pub tree: PaneNode,
    pub active_pane: PaneId,
}

/// The title pinned on a tab, if any: an empty pin counts as none.
pub open spec fn title_pin(t: Tab) -> Option<Seq<char>> {
    match t.title_override {
        Some(s) => if s@.len() > 0 {
            Some(s@)
        } else {
            None
        },
        None => None,
    }
}

impl Tab {
    /// The pinned title if set and non-empty, else the active pane's session
    /// title, `"AI Chat"` for a chat pane, or `"Shell"`.
    pub fn title<S, F: Fn(&S) -> String>(&self, panes: &HashMap<u128, Pane<S>>, session_title: F) -> (t: String)
        requires
            forall|s: &S| #[trigger] call_requires(session_title, (s,)),
        ensures
            title_pin(*self) matches Some(pin) ==> t@ == pin,
            title_pin(*self) is None ==> {
                if panes@.contains_key(self.active_pane.0) {
                    let pane = panes@[self.active_pane.0];
                    if pane.session is Some {
                        call_ensures(session_title, (&pane.session->0,), t)
                    } else if pane.kind == PaneKind::AiChat {
                        t@ == "AI Chat"@
                    } else {
                        t@ == "Shell"@
                    }
                } else {
                    t@ == "Shell"@
                }
            },
    {
        if let Some(t) = &self.title_override {
            if !t.as_str().is_empty() {
                return t.clone();
            }
        }
        if let Some(pane) = panes.get(&self.active_pane.0) {
            if let Some(session) = &pane.session {
                return session_title(session);
            }
            if pane.kind == PaneKind::AiChat {
                return owned("AI Chat");
            }
        }
        owned("Shell")
    }
}

/// What a new session is spawned with.
pub struct SpawnOptions {
    pub cols: u16,
    pub rows: u16,
    pub scrollback: usize,
    pub shell: Option<String>,
    pub cwd: Option<String>,
    pub term_program: String,
}

/// Scrollback line count for a setting; "unlimited" gets a soft cap.
pub open spec fn scrollback_count(l: ScrollbackLines) -> usize {
    match l {
        ScrollbackLines::Limited(n) => n,
        ScrollbackLines::Unlimited => 10_000_000,
    }
}

#[derive(Debug, Clone, Copy)]
pub enum FocusDir {
    Left,
    Right,
    Up,
    Down,
}

/// Where a pane was laid out on screen, in pixels: `w` by `h` from the
/// top-left corner `(x, y)`.
#[derive(Debug, Clone, Copy, PartialEq, Eq, Structural)]
pub struct PaneRect {
    pub pane: PaneId,
    pub x: u32,
    pub y: u32,
    pub w: u32,
    pub h: u32,
}

/// The spans `[a, a + al)` and `[b, b + bl)` share a point.
pub open spec fn spans_overlap(a: u32, al: u32, b: u32, bl: u32) -> bool {
    a < b + bl && b < a + al
}

/// `r` lies wholly on the `dir` side of `from` and faces it: the two
/// overlap across the direction of travel.
pub open spec fn lies_toward(from: PaneRect, r: PaneRect, dir: FocusDir) -> bool {
    match dir {
        FocusDir::Left => r.x + r.w <= from.x && spans_overlap(r.y, r.h, from.y, from.h),
        FocusDir::Right => from.x + from.w <= r.x && spans_overlap(r.y, r.h, from.y, from.h),
        FocusDir::Up => r.y + r.h <= from.y && spans_overlap(r.x, r.w, from.x, from.w),
        FocusDir::Down => from.y + from.h <= r.y && spans_overlap(r.x, r.w, from.x, from.w),
    }
}

/// The distance from `from` to `r` in direction `dir`.
pub open spec fn gap_toward(from: PaneRect, r: PaneRect, dir: FocusDir) -> int {
    match dir {
        FocusDir::Left => from.x - (r.x + r.w),
        FocusDir::Right => r.x - (from.x + from.w),
        FocusDir::Up => from.y - (r.y + r.h),
        FocusDir::Down => r.y - (from.y + from.h),
    }
}

/// Entry `i` of `rects` is a pane of `panes` other than `from`'s that lies
/// in direction `dir` of `from`.
pub open spec fn is_candidate(
    rects: Seq<PaneRect>,
    panes: Seq<PaneId>,
    from: PaneRect,
    dir: FocusDir,
    i: int,
) -> bool {
    &&& 0 <= i < rects.len()
    &&& panes.contains(rects[i].pane)
    &&& rects[i].pane != from.pane
    &&& lies_toward(from, rects[i], dir)
}

/// Entry `i` is the nearest candidate, and the first of the nearest.
pub open spec fn is_nearest(
    rects: Seq<PaneRect>,
    panes: Seq<PaneId>,
    from: PaneRect,
    dir: FocusDir,
    i: int,
) -> bool {
    &&& is_candidate(rects, panes, from, dir, i)
    &&& forall|j: int|
        #![trigger is_candidate(rects, panes, from, dir, j)]
        is_candidate(rects, panes, from, dir, j) ==> gap_toward(from, rects[i], dir) <= gap_toward(
            from,
            rects[j],
            dir,
        )
    &&& forall|j: int|
        #![trigger is_candidate(rects, panes, from, dir, j)]
        0 <= j < i && is_candidate(rects, panes, from, dir, j) ==> gap_toward(from, rects[i], dir)
            < gap_toward(from, rects[j], dir)
}

/// The position in `rects` of the pane that focus moves to from `from`.
pub open spec fn nearest_toward(
    rects: Seq<PaneRect>,
    panes: Seq<PaneId>,
    from: PaneRect,
    dir: FocusDir,
) -> Option<int> {
    if exists|i: int| is_candidate(rects, panes, from, dir, i) {
        Some(choose|i: int| is_nearest(rects, panes, from, dir, i))
    } else {
        None
    }
}

/// Entry `i` is the first rectangle of pane `p`.
pub open spec fn is_first_rect(rects: Seq<PaneRect>, p: PaneId, i: int) -> bool {
    &&& 0 <= i < rects.len()
    &&& rects[i].pane == p
    &&& forall|j: int| 0 <= j < i ==> rects[j].pane != p
}

/// The pane focus moves to from `active` in direction `dir`, given where the
/// panes were laid out: the nearest of `panes` that lies wholly on that side
/// of `active` and faces it (the first such in `rects` where several are as
/// near). `None`, so that focus stays, when `active` was not laid out or no
/// pane lies that way.
pub open spec fn focus_target(rects: Seq<PaneRect>, panes: Seq<PaneId>, active: PaneId, dir: FocusDir) -> Option<PaneId> {
    if exists|k: int| is_first_rect(rects, active, k) {
        let k = choose|k: int| is_first_rect(rects, active, k);
        match nearest_toward(rects, panes, rects[k], dir) {
            Some(i) => Some(rects[i].pane),
            None => None,
        }
    } else {
        None
    }
}

fn lies_toward_exec(from: PaneRect, r: PaneRect, dir: FocusDir) -> (b: bool)
    ensures
        b == lies_toward(from, r, dir),
{
    let (fx, fy, fw, fh) = (from.x as u64, from.y as u64, from.w as u64, from.h as u64);
    let (rx, ry, rw, rh) = (r.x as u64, r.y as u64, r.w as u64, r.h as u64);
    let across_y = ry < fy + fh && fy < ry + rh;
    let across_x = rx < fx + fw && fx < rx + rw;
    match dir {
        FocusDir::Left => rx + rw <= fx && across_y,
        FocusDir::Right => fx + fw <= rx && across_y,
        FocusDir::Up => ry + rh <= fy && across_x,
        FocusDir::Down => fy + fh <= ry && across_x,
    }
}

fn gap_toward_exec(from: PaneRect, r: PaneRect, dir: FocusDir) -> (g: u64)
    requires
        lies_toward(from, r, dir),
    ensures
        g == gap_toward(from, r, dir),
{
    let (fx, fy, fw, fh) = (from.x as u64, from.y as u64, from.w as u64, from.h as u64);
    let (rx, ry, rw, rh) = (r.x as u64, r.y as u64, r.w as u64, r.h as u64);
    match dir {
        FocusDir::Left => fx - (rx + rw),
        FocusDir::Right => rx - (fx + fw),
        FocusDir::Up => fy - (ry + rh),
        FocusDir::Down => ry - (fy + fh),
    }
}

/// The position of the first rectangle of pane `p`.
fn first_rect_of(rects: &Vec<PaneRect>, p: PaneId) -> (r: Option<usize>)
    ensures
        match r {
            Some(i) => is_first_rect(rects@, p, i as int),
            None => !exists|k: int| is_first_rect(rects@, p, k),
        },
{
    let mut i: usize = 0;
    while i < rects.len()
        invariant
            i <= rects@.len(),
            forall|j: int| 0 <= j < i ==> rects@[j].pane != p,
        decreases rects@.len() - i,
    {
        if rects[i].pane == p {
            return Some(i);
        }
        i = i + 1;
    }
    None
}

/// Two entries that are each the nearest are the same.
proof fn lemma_nearest_unique(
    rects: Seq<PaneRect>,
    panes: Seq<PaneId>,
    from: PaneRect,
    dir: FocusDir,
    a: int,
    b: int,
)
    requires
        is_nearest(rects, panes, from, dir, a),
        is_nearest(rects, panes, from, dir, b),
    ensures
        a == b,
{
    if a < b {
        assert(is_candidate(rects, panes, from, dir, a));
    } else if b < a {
        assert(is_candidate(rects, panes, from, dir, b));
    }
}

/// The position in `rects` of the nearest pane of `panes` in direction
/// `dir` of `from`.
fn nearest_toward_exec(rects: &Vec<PaneRect>, panes: &Vec<PaneId>, from: PaneRect, dir: FocusDir) -> (r: Option<usize>)
    ensures
        match r {
            Some(i) => is_nearest(rects@, panes@, from, dir, i as int) && nearest_toward(
                rects@,
                panes@,
                from,
                dir,
            ) == Some(i as int),
            None => nearest_toward(rects@, panes@, from, dir) is None,
        },
{
    let mut best: Option<usize> = None;
    let mut best_gap: u64 = 0;
    let mut i: usize = 0;
    while i < rects.len()
        invariant
            i <= rects@.len(),
            match best {
                Some(b) => {
                    &&& b < i
                    &&& is_candidate(rects@, panes@, from, dir, b as int)
                    &&& best_gap == gap_toward(from, rects@[b as int], dir)
                    &&& forall|j: int|
                        #![trigger is_candidate(rects@, panes@, from, dir, j)]
                        0 <= j < i && is_candidate(rects@, panes@, from, dir, j) ==> best_gap
                            <= gap_toward(from, rects@[j], dir)
                    &&& forall|j: int|
                        #![trigger is_candidate(rects@, panes@, from, dir, j)]
                        0 <= j < b && is_candidate(rects@, panes@, from, dir, j) ==> best_gap
                            < gap_toward(from, rects@[j], dir)
                },
                None => forall|j: int|
                    #![trigger is_candidate(rects@, panes@, from, dir, j)]
                    0 <= j < i ==> !is_candidate(rects@, panes@, from, dir, j),
            },
        decreases rects@.len() - i,
    {
        let r = rects[i];
        if r.pane != from.pane && lies_toward_exec(from, r, dir) && position_of(panes, r.pane).is_some() {
            let g = gap_toward_exec(from, r, dir);
            let better = match best {
                Some(_) => g < best_gap,
                None => true,
            };
            if better {
                best = Some(i);
                best_gap = g;
            }
        }
        proof {
            assert(rects@[i as int] == r);
        }
        i = i + 1;
    }
    proof {
        match best {
            Some(b) => {
                assert(is_nearest(rects@, panes@, from, dir, b as int));
                let c = choose|c: int| is_nearest(rects@, panes@, from, dir, c);
                lemma_nearest_unique(rects@, panes@, from, dir, b as int, c);
            },
            None => {
                assert(!exists|k: int| is_candidate(rects@, panes@, from, dir, k));
            },
        }
    }
    best
}

/// Keys of the panes at the leaves of a tree.
pub open spec fn leaf_keys(n: PaneNode) -> Set<u128>
    decreases n,
{
    match n {
        PaneNode::Leaf(id) => set![id.0],
        PaneNode::Split { first, second, .. } => leaf_keys(*first).union(leaf_keys(*second)),
    }
}

/// Tab index after moving one to the right, wrapping around.
pub open spec fn next_index(len: int, a: int) -> int {
    (a + 1) % len
}

/// Tab index after moving one to the left, wrapping around.
pub open spec fn prev_index(len: int, a: int) -> int {
    if a == 0 {
        len - 1
    } else {
        a - 1
    }
}

/// `s` with the items at `i` and `j` exchanged.
pub open spec fn swapped<T>(s: Seq<T>, i: int, j: int) -> Seq<T> {
    s.update(i, s[j]).update(j, s[i])
}

/// A title as it is pinned: an empty one clears the pin.
pub open spec fn pinned_title(title: Option<String>) -> Option<String> {
    match title {
        Some(t) => if t@.len() > 0 {
            Some(t)
        } else {
            None
        },
        None => None,
    }
}

/// `t` with its title pin replaced.
pub open spec fn with_title(t: Tab, title: Option<String>) -> Tab {
    Tab { id: t.id, title_override: title, tree: t.tree, active_pane: t.active_pane }
}

/// `t` with another active pane.
pub open spec fn with_active(t: Tab, p: PaneId) -> Tab {
    Tab { id: t.id, title_override: t.title_override, tree: t.tree, active_pane: p }
}

/// `t` after its active pane was split off into `new_pane`, which becomes active.
pub open spec fn split_tab(t: Tab, new_pane: PaneId, d: SplitDirection) -> Tab {
    Tab {
        id: t.id,
        title_override: t.title_override,
        tree: split_first(t.tree, t.active_pane, new_pane, d),
        active_pane: new_pane,
    }
}

/// `v` at least 1.
pub open spec fn max1_u16(v: u16) -> u16 {
    if v < 1 {
        1
    } else {
        v
    }
}

/// What splitting the active pane of `before` into a new pane `p` of `kind`
/// holding `session` leads to: `p` is registered either way; with an active
/// tab its active pane is split and `p` becomes active, else nothing else
/// changes and the answer is `NoActiveTab`.
pub open spec fn split_outcome<S>(
    before: MuxView<S>,
    after: MuxView<S>,
    r: Result<(), MuxError>,
    p: PaneId,
    kind: PaneKind,
    session: Option<S>,
    direction: SplitDirection,
) -> bool {
    let a = before.active_tab as int;
    &&& after.panes == before.panes.insert(p.0, Pane { id: p, kind, session })
    &&& after.cols == before.cols
    &&& after.rows == before.rows
    &&& after.scrollback == before.scrollback
    &&& after.active_tab == before.active_tab
    &&& if a < before.tabs.len() {
        &&& r == Ok::<(), MuxError>(())
        &&& after.tabs == before.tabs.update(a, split_tab(before.tabs[a], p, direction))
    } else {
        &&& r == Err::<(), MuxError>(MuxError::NoActiveTab)
        &&& after.tabs == before.tabs
    }
}

/// Position of the first `x` in `v`.
fn position_of(v: &Vec<PaneId>, x: PaneId) -> (r: Option<usize>)
    ensures
        match r {
            Some(i) => v@.contains(x) && i == first_index(v@, x),
            None => !v@.contains(x),
        },
{
    let mut i: usize = 0;
    while i < v.len()
        invariant
            i <= v@.len(),
            forall|j: int| 0 <= j < i ==> v@[j] != x,
        decreases v@.len() - i,
    {
        if v[i] == x {
            proof {
                lemma_first_index(v@, x);
                assert(v@.contains(x));
            }
            return Some(i);
        }
        i = i + 1;
    }
    None
}

/// Going to the next tab and then to the previous one (or the other way
/// round) comes back to the tab one started on.
pub proof fn lemma_tab_next_prev(len: int, a: int)
    requires
        0 <= a < len,
    ensures
        prev_index(len, next_index(len, a)) == a,
        next_index(len, prev_index(len, a)) == a,
{
    if a + 1 < len {
        assert((a + 1) % len == a + 1) by (nonlinear_arith)
            requires
                0 <= a + 1 < len,
        ;
    } else {
        assert((a + 1) % len == 0) by (nonlinear_arith)
            requires
                a + 1 == len,
                len > 0,
        ;
    }
    if a == 0 {
        assert(len % len == 0) by (nonlinear_arith)
            requires
                len > 0,
        ;
    } else {
        assert(a % len == a) by (nonlinear_arith)
            requires
                0 <= a < len,
        ;
    }
}

/// Going to the next tab and then to the previous one (or the other way
/// round) comes back to the tab one started on, with the tabs, the panes and
/// everything else as they were.
pub proof fn lemma_tab_prev_undoes_tab_next<S>(m: MuxView<S>)
    requires
        m.wf(),
    ensures
        m.after_tab_next().after_tab_prev() == m,
        m.after_tab_prev().after_tab_next() == m,
{
    if m.tabs.len() > 0 {
        let len = m.tabs.len() as int;
        let a = m.active_tab as int;
        lemma_tab_next_prev(len, a);
        assert(0 <= next_index(len, a) < len) by (nonlinear_arith)
            requires
                next_index(len, a) == (a + 1) % len,
                len > 0,
        ;
    }
}

/// Moving a tab left and then right again (or right, then left) restores
/// the order of the tabs.
pub proof fn lemma_tab_move_undo<T>(s: Seq<T>, a: int)
    requires
        0 < a < s.len(),
    ensures
        swapped(swapped(s, a, a - 1), a - 1, a) == s,
        swapped(swapped(s, a - 1, a), a, a - 1) == s,
{
    assert(swapped(swapped(s, a, a - 1), a - 1, a) =~= s);
    assert(swapped(swapped(s, a - 1, a), a, a - 1) =~= s);
}

/// A non-empty title that is pinned is the one shown; pinning an empty title
/// or none leaves the tab unpinned.
pub proof fn lemma_pinned_title(t: Tab, title: Option<String>)
    ensures
        title_pin(with_title(t, pinned_title(title))) == match title {
            Some(s) => if s@.len() > 0 {
                Some(s@)
            } else {
                None
            },
            None => None,
        },
{
}

/// Tabs, each a tree of panes, and the panes by identifier. The fields are
/// private: only the methods below, each of which keeps [`Mux::wf`], change
/// them.
pub struct Mux<S> {
    tabs: Vec<Tab>,
    active_tab: usize,
    panes: HashMap<u128, Pane<S>>,
    cols: u16,
    rows: u16,
    scrollback: usize,
    shell: Option<String>,
    cwd: Option<String>,
    term_program: String,
}

/// Accumulated outcome of draining the sessions' events.
pub struct PumpResult {
    pub dirty: bool,
    pub bell: bool,
    pub exited: Vec<PaneId>,
}

impl PumpResult {
    /// Nothing happened yet.
    pub fn new() -> (r: Self)
        ensures
            !r.dirty && !r.bell && r.exited@.len() == 0,
    {
        PumpResult { dirty: false, bell: false, exited: Vec::new() }
    }

    /// Account for one event of pane `id`: every event needs a redraw, a
    /// bell rings the bell, an exit records the pane.
    pub fn record(&mut self, id: PaneId, ev: &PtyEvent)
        ensures
            final(self).dirty,
            final(self).bell == (old(self).bell || *ev is Bell),
            final(self).exited@ == (if *ev is Exit {
                old(self).exited@.push(id)
            } else {
                old(self).exited@
            }),
    {
        match ev {
            PtyEvent::Output | PtyEvent::Title(_) => self.dirty = true,
            PtyEvent::Bell => {
                self.dirty = true;
                self.bell = true;
            },
            PtyEvent::Exit => {
                self.exited.push(id);
                self.dirty = true;
            },
        }
    }
}

/// Abstract state of a [`Mux`].
pub struct MuxView<S> {
    pub tabs: Seq<Tab>,
    pub active_tab: usize,
    pub panes: Map<u128, Pane<S>>,
    pub cols: u16,
    pub rows: u16,
    pub scrollback: usize,
    /// The shell sessions are spawned with (`None`: the platform's default).
    pub shell: Option<Seq<char>>,
    /// Their working directory (`None`: that of this process).
    pub cwd: Option<Seq<char>>,
    /// Their `TERM`.
    pub term_program: Seq<char>,
}

impl<S> MuxView<S> {
    /// The active tab index is valid whenever there are tabs, and each tab's
    /// active pane is one of its leaves; there are no more tabs than a
    /// vector holds.
    pub open spec fn wf(self) -> bool {
        &&& self.tabs.len() <= usize::MAX
        &&& (self.tabs.len() == 0 || self.active_tab < self.tabs.len())
        &&& forall|i: int|
            0 <= i < self.tabs.len() ==> leaves(#[trigger] self.tabs[i].tree).contains(
                self.tabs[i].active_pane,
            )
    }

    /// The state after going to the next tab, wrapping around.
    pub open spec fn after_tab_next(self) -> Self {
        if self.tabs.len() == 0 {
            self
        } else {
            self.with_tabs(self.tabs, next_index(self.tabs.len() as int, self.active_tab as int) as usize)
        }
    }

    /// The state after going to the previous tab, wrapping around.
    pub open spec fn after_tab_prev(self) -> Self {
        if self.tabs.len() == 0 {
            self
        } else {
            self.with_tabs(self.tabs, prev_index(self.tabs.len() as int, self.active_tab as int) as usize)
        }
    }

    /// The same state with other panes.
    pub open spec fn with_panes(self, panes: Map<u128, Pane<S>>) -> Self {
        MuxView { panes, ..self }
    }

    /// The same state with other tabs and active tab.
    pub open spec fn with_tabs(self, tabs: Seq<Tab>, active_tab: usize) -> Self {
        MuxView { tabs, active_tab, ..self }
    }
}

impl<S> View for Mux<S> {
    type V = MuxView<S>;

    closed spec fn view(&self) -> MuxView<S> {
        MuxView {
            tabs: self.tabs@,
            active_tab: self.active_tab,
            panes: self.panes@,
            cols: self.cols,
            rows: self.rows,
            scrollback: self.scrollback,
            shell: opt_chars(self.shell),
            cwd: opt_chars(self.cwd),
            term_program: self.term_program@,
        }
    }
}

impl<S> Mux<S> {
    /// The active tab index is valid whenever there are tabs, and each tab's
    /// active pane is one of its leaves.
    pub open spec fn wf(&self) -> bool {
        self@.wf()
    }

    /// Size and scrollback sessions are spawned with.
    pub closed spec fn session_size(&self) -> (u16, u16, usize) {
        (self.cols, self.rows, self.scrollback)
    }

    pub fn new(config: &Config) -> (m: Self)
        ensures
            m.wf(),
            m@.tabs.len() == 0,
            m@.active_tab == 0,
            m@.panes == Map::<u128, Pane<S>>::empty(),
            m.session_size() == (
                config.window.initial_cols,
                config.window.initial_rows,
                scrollback_count(config.scrollback.lines),
            ),
            m@.shell == opt_chars(config.term.shell),
            m@.cwd == opt_chars(config.term.cwd),
            m@.term_program == config.term.program@,
    {
        let scrollback = match config.scrollback.lines {
            ScrollbackLines::Limited(n) => n,
            // Practical soft cap for "unlimited".
            ScrollbackLines::Unlimited => 10_000_000,
        };
        Mux {
            tabs: Vec::new(),
            active_tab: 0,
            panes: HashMap::new(),
            cols: config.window.initial_cols,
            rows: config.window.initial_rows,
            scrollback,
            shell: clone_opt_string(&config.term.shell),
            cwd: clone_opt_string(&config.term.cwd),
            term_program: config.term.program.clone(),
        }
    }

    /// Options for spawning a session of the current size (at least 1x1).
    pub fn spawn_options(&self) -> (o: SpawnOptions)
        ensures
            o.cols == (if self.session_size().0 < 1 { 1 } else { self.session_size().0 }),
            o.rows == (if self.session_size().1 < 1 { 1 } else { self.session_size().1 }),
            o.scrollback == self.session_size().2,
            opt_chars(o.shell) == self@.shell,
            opt_chars(o.cwd) == self@.cwd,
            o.term_program@ == self@.term_program,
    {
        SpawnOptions {
            cols: if self.cols < 1 {
                1
            } else {
                self.cols
            },
            rows: if self.rows < 1 {
                1
            } else {
                self.rows
            },
            scrollback: self.scrollback,
            shell: clone_opt_string(&self.shell),
            cwd: clone_opt_string(&self.cwd),
            term_program: self.term_program.clone(),
        }
    }

    /// Open a tab holding one terminal pane with `session`, and activate it.
    pub fn new_tab(&mut self, session: S) -> (id: TabId)
        requires
            old(self).wf(),
        ensures
            final(self).wf(),
            final(self)@.tabs.len() == old(self)@.tabs.len() + 1,
            forall|i: int| 0 <= i < old(self)@.tabs.len() ==> final(self)@.tabs[i] == old(self)@.tabs[i],
            final(self)@.active_tab == old(self)@.tabs.len(),
            ({
                let t = final(self)@.tabs.last();
                &&& t.id == id
                &&& t.title_override is None
                &&& t.tree == PaneNode::Leaf(t.active_pane)
                &&& final(self)@.panes == old(self)@.panes.insert(
                    t.active_pane.0,
                    Pane { id: t.active_pane, kind: PaneKind::Terminal, session: Some(session) },
                )
            }),
            final(self).session_size() == old(self).session_size(),
    {
        let pane_id = PaneId::new();
        let tab_id = TabId::new();
        self.panes.insert(
            pane_id.0,
            Pane { id: pane_id, kind: PaneKind::Terminal, session: Some(session) },
        );
        self.tabs.push(
            Tab { id: tab_id, title_override: None, tree: PaneNode::Leaf(pane_id), active_pane: pane_id },
        );
        self.active_tab = self.tabs.len() - 1;
        proof {
            assert(leaves(PaneNode::Leaf(pane_id))[0] == pane_id);
            assert forall|i: int| 0 <= i < self@.tabs.len() implies leaves(
                #[trigger] self@.tabs[i].tree,
            ).contains(self@.tabs[i].active_pane) by {
                if i < old(self)@.tabs.len() {
                    assert(self@.tabs[i] == old(self)@.tabs[i]);
                }
            }
        }
        tab_id
    }

    /// Close the active tab and drop its panes; `true` when tabs remain.
    pub fn close_active_tab(&mut self) -> (r: bool)
        requires
            old(self).wf(),
        ensures
            final(self).wf(),
            old(self)@.tabs.len() == 0 ==> !r && final(self)@ == old(self)@,
            old(self)@.tabs.len() > 0 ==> {
                let a = old(self)@.active_tab as int;
                let rest = old(self)@.tabs.remove(a);
                &&& r == (rest.len() > 0)
                &&& final(self)@ == old(self)@.with_tabs(
                    rest,
                    (if r && a >= rest.len() {
                        (rest.len() - 1) as usize
                    } else {
                        a as usize
                    }),
                ).with_panes(old(self)@.panes.remove_keys(leaf_keys(old(self)@.tabs[a].tree)))
            },
            final(self).session_size() == old(self).session_size(),
    {
        if self.tabs.len() == 0 {
            return false;
        }
        let tab = self.tabs.remove(self.active_tab);
        self.drop_tree_panes(&tab.tree);
        if self.tabs.len() == 0 {
            return false;
        }
        if self.active_tab >= self.tabs.len() {
            self.active_tab = self.tabs.len() - 1;
        }
        proof {
            let a = old(self)@.active_tab as int;
            assert forall|i: int| 0 <= i < self@.tabs.len() implies leaves(
                #[trigger] self@.tabs[i].tree,
            ).contains(self@.tabs[i].active_pane) by {
                if i < a {
                    assert(self@.tabs[i] == old(self)@.tabs[i]);
                } else {
                    assert(self@.tabs[i] == old(self)@.tabs[i + 1]);
                }
            }
        }
        true
    }

    /// Close the active pane of the active tab: the pane is dropped and its
    /// sibling takes the place of their split, focus passing to the pane of
    /// the sibling next to it (see [`tree_without`] and [`heir`]). Closing the
    /// last pane of a tab closes the tab, as [`Mux::close_active_tab`] does.
    /// `true` when tabs remain.
    pub fn close_active_pane(&mut self) -> (r: bool)
        requires
            old(self).wf(),
        ensures
            final(self).wf(),
            final(self).session_size() == old(self).session_size(),
            old(self)@.tabs.len() == 0 ==> !r && final(self)@ == old(self)@,
            old(self)@.tabs.len() > 0 ==> {
                let a = old(self)@.active_tab as int;
                let t = old(self)@.tabs[a];
                match tree_without(t.tree, t.active_pane) {
                    Some(m) => {
                        &&& r
                        &&& final(self)@ == old(self)@.with_tabs(
                            old(self)@.tabs.update(
                                a,
                                Tab {
                                    id: t.id,
                                    title_override: t.title_override,
                                    tree: m,
                                    active_pane: heir(t.tree, t.active_pane)->0,
                                },
                            ),
                            old(self)@.active_tab,
                        ).with_panes(old(self)@.panes.remove(t.active_pane.0))
                    },
                    None => {
                        let rest = old(self)@.tabs.remove(a);
                        &&& r == (rest.len() > 0)
                        &&& final(self)@ == old(self)@.with_tabs(
                            rest,
                            (if r && a >= rest.len() {
                                (rest.len() - 1) as usize
                            } else {
                                a as usize
                            }),
                        ).with_panes(old(self)@.panes.remove_keys(leaf_keys(t.tree)))
                    },
                }
            },
    {
        if self.tabs.len() == 0 {
            return false;
        }
        let a = self.active_tab;
        let target = self.tabs[a].active_pane;
        proof {
            lemma_tree_without(self@.tabs[a as int].tree, target);
        }
        if let PaneNode::Leaf(_) = &self.tabs[a].tree {
            return self.close_active_tab();
        }
        let mut taken = PaneNode::Leaf(target);
        std::mem::swap(&mut taken, &mut self.tabs[a].tree);
        let (rest, heir_pane) = remove_leaf(taken, target);
        self.tabs[a].tree = rest.unwrap();
        self.tabs[a].active_pane = heir_pane.unwrap();
        self.panes.remove(&target.0);
        proof {
            let t = old(self)@.tabs[a as int];
            assert(self@.tabs =~= old(self)@.tabs.update(
                a as int,
                Tab {
                    id: t.id,
                    title_override: t.title_override,
                    tree: tree_without(t.tree, target)->0,
                    active_pane: heir(t.tree, target)->0,
                },
            ));
            assert forall|j: int| 0 <= j < self@.tabs.len() implies leaves(
                #[trigger] self@.tabs[j].tree,
            ).contains(self@.tabs[j].active_pane) by {
                if j != a {
                    assert(self@.tabs[j] == old(self)@.tabs[j]);
                }
            }
        }
        true
    }

    /// Drop the panes at the leaves of `node`.
    fn drop_tree_panes(&mut self, node: &PaneNode)
        ensures
            final(self)@ == old(self)@.with_panes(old(self)@.panes.remove_keys(leaf_keys(*node))),
            final(self).session_size() == old(self).session_size(),
        decreases node,
    {
        match node {
            PaneNode::Leaf(id) => {
                self.panes.remove(&id.0);
                proof {
                    assert(self@.panes =~= old(self)@.panes.remove_keys(leaf_keys(*node)));
                }
            },
            PaneNode::Split { first, second, .. } => {
                self.drop_tree_panes(first);
                self.drop_tree_panes(second);
                proof {
                    assert(self@.panes =~= old(self)@.panes.remove_keys(leaf_keys(*node)));
                }
            },
        }
        proof {
            assert(self@ == old(self)@.with_panes(old(self)@.panes.remove_keys(leaf_keys(*node))));
        }
    }

    /// Make tab `index` active when there is one.
    pub fn activate_tab(&mut self, index: usize)
        requires
            old(self).wf(),
        ensures
            final(self).wf(),
            final(self)@ == old(self)@.with_tabs(
                old(self)@.tabs,
                (if index < old(self)@.tabs.len() {
                    index
                } else {
                    old(self)@.active_tab
                }),
            ),
            final(self).session_size() == old(self).session_size(),
    {
        if index < self.tabs.len() {
            self.active_tab = index;
        }
    }

    /// Activate the next tab, wrapping around.
    pub fn tab_next(&mut self)
        requires
            old(self).wf(),
        ensures
            final(self).wf(),
            final(self)@ == old(self)@.after_tab_next(),
            final(self).session_size() == old(self).session_size(),
    {
        if self.tabs.len() == 0 {
            return;
        }
        self.active_tab = (self.active_tab + 1) % self.tabs.len();
    }

    /// Activate the previous tab, wrapping around.
    pub fn tab_prev(&mut self)
        requires
            old(self).wf(),
        ensures
            final(self).wf(),
            final(self)@ == old(self)@.after_tab_prev(),
            final(self).session_size() == old(self).session_size(),
    {
        if self.tabs.len() == 0 {
            return;
        }
        if self.active_tab == 0 {
            self.active_tab = self.tabs.len() - 1;
        } else {
            self.active_tab = self.active_tab - 1;
        }
    }

    /// Move the active tab one place to the left, keeping it active.
    pub fn tab_move_left(&mut self)
        requires
            old(self).wf(),
        ensures
            final(self).wf(),
            ({
                let a = old(self)@.active_tab as int;
                if a == 0 || old(self)@.tabs.len() < 2 {
                    final(self)@ == old(self)@
                } else {
                    final(self)@ == old(self)@.with_tabs(
                        swapped(old(self)@.tabs, a, a - 1),
                        (a - 1) as usize,
                    )
                }
            }),
            final(self).session_size() == old(self).session_size(),
    {
        if self.active_tab == 0 || self.tabs.len() < 2 {
            return;
        }
        let a = self.active_tab;
        let t = self.tabs.remove(a);
        self.tabs.insert(a - 1, t);
        self.active_tab = a - 1;
        proof {
            assert(self@.tabs =~= swapped(old(self)@.tabs, a as int, a - 1));
            assert forall|i: int| 0 <= i < self@.tabs.len() implies leaves(
                #[trigger] self@.tabs[i].tree,
            ).contains(self@.tabs[i].active_pane) by {
                if i == a {
                    assert(self@.tabs[i] == old(self)@.tabs[a - 1]);
                } else if i == a - 1 {
                    assert(self@.tabs[i] == old(self)@.tabs[a as int]);
                } else {
                    assert(self@.tabs[i] == old(self)@.tabs[i]);
                }
            }
        }
    }

    /// Move the active tab one place to the right, keeping it active.
    pub fn tab_move_right(&mut self)
        requires
            old(self).wf(),
        ensures
            final(self).wf(),
            ({
                let a = old(self)@.active_tab as int;
                if a + 1 >= old(self)@.tabs.len() {
                    final(self)@ == old(self)@
                } else {
                    final(self)@ == old(self)@.with_tabs(
                        swapped(old(self)@.tabs, a, a + 1),
                        (a + 1) as usize,
                    )
                }
            }),
            final(self).session_size() == old(self).session_size(),
    {
        if self.tabs.len() < 2 || self.active_tab >= self.tabs.len() - 1 {
            return;
        }
        let a = self.active_tab;
        let t = self.tabs.remove(a);
        self.tabs.insert(a + 1, t);
        self.active_tab = a + 1;
        proof {
            assert(self@.tabs =~= swapped(old(self)@.tabs, a as int, a + 1));
            assert forall|i: int| 0 <= i < self@.tabs.len() implies leaves(
                #[trigger] self@.tabs[i].tree,
            ).contains(self@.tabs[i].active_pane) by {
                if i == a {
                    assert(self@.tabs[i] == old(self)@.tabs[a + 1]);
                } else if i == a + 1 {
                    assert(self@.tabs[i] == old(self)@.tabs[a as int]);
                } else {
                    assert(self@.tabs[i] == old(self)@.tabs[i]);
                }
            }
        }
    }

    /// Pin the active tab's title; `None` or an empty title unpins it.
    pub fn set_tab_title(&mut self, title: Option<String>)
        requires
            old(self).wf(),
        ensures
            final(self).wf(),
            ({
                let a = old(self)@.active_tab as int;
                if a < old(self)@.tabs.len() {
                    final(self)@ == old(self)@.with_tabs(
                        old(self)@.tabs.update(a, with_title(old(self)@.tabs[a], pinned_title(title))),
                        old(self)@.active_tab,
                    )
                } else {
                    final(self)@ == old(self)@
                }
            }),
            final(self).session_size() == old(self).session_size(),
    {
        if self.active_tab < self.tabs.len() {
            let pinned = match title {
                Some(t) => if t.as_str().is_empty() {
                    None
                } else {
                    Some(t)
                },
                None => None,
            };
            let a = self.active_tab;
            self.tabs[a].title_override = pinned;
            proof {
                assert(self@.tabs =~= old(self)@.tabs.update(
                    a as int,
                    with_title(old(self)@.tabs[a as int], pinned_title(title)),
                ));
                assert forall|i: int| 0 <= i < self@.tabs.len() implies leaves(
                    #[trigger] self@.tabs[i].tree,
                ).contains(self@.tabs[i].active_pane) by {
                    assert(self@.tabs[i].tree == old(self)@.tabs[i].tree);
                    assert(self@.tabs[i].active_pane == old(self)@.tabs[i].active_pane);
                }
            }
        }
    }

    /// The active tab's active pane, for changing it in place.
    pub fn active_pane_mut(&mut self) -> (r: Option<&mut Pane<S>>)
        ensures
            final(self).session_size() == old(self).session_size(),
            ({
                let a = old(self)@.active_tab as int;
                let found = a < old(self)@.tabs.len() && old(self)@.panes.contains_key(
                    old(self)@.tabs[a].active_pane.0,
                );
                match r {
                    Some(p) => {
                        let k = old(self)@.tabs[a].active_pane.0;
                        &&& found
                        &&& *p == old(self)@.panes[k]
                        &&& final(self)@ == old(self)@.with_panes(old(self)@.panes.insert(k, *final(p)))
                    },
                    None => !found && final(self)@ == old(self)@,
                }
            }),
    {
        if self.active_tab >= self.tabs.len() {
            return None;
        }
        let pane_id = self.tabs[self.active_tab].active_pane;
        let entry = self.panes.entry(pane_id.0);
        match entry {
            std::collections::hash_map::Entry::Occupied(o) => {
                let p = o.into_mut();
                Some(p)
            },
            std::collections::hash_map::Entry::Vacant(v) => {
                proof {
                    assert(old(self)@.panes.remove(pane_id.0) =~= old(self)@.panes);
                }
                None
            },
        }
    }

    /// Register a new pane and split the active tab's active pane into it,
    /// which then becomes active. The pane stays registered even when there
    /// is no tab to put it in.
    fn attach_split(&mut self, kind: PaneKind, session: Option<S>, direction: SplitDirection) -> (r: Result<(), MuxError>)
        requires
            old(self).wf(),
        ensures
            final(self).wf(),
            final(self).session_size() == old(self).session_size(),
            exists|p: PaneId| #[trigger] split_outcome(old(self)@, final(self)@, r, p, kind, session, direction),
    {
        let new_id = PaneId::new();
        self.panes.insert(new_id.0, Pane { id: new_id, kind, session });
        if self.active_tab >= self.tabs.len() {
            proof {
                assert(split_outcome(old(self)@, self@, Err(MuxError::NoActiveTab), new_id, kind, session, direction));
            }
            return Err(MuxError::NoActiveTab);
        }
        let a = self.active_tab;
        let active = self.tabs[a].active_pane;
        let res = replace_leaf_with_split(&mut self.tabs[a].tree, active, new_id, direction);
        if res.is_err() {
            proof {
                assert(leaves(old(self)@.tabs[a as int].tree).contains(active));
            }
            return Err(MuxError::LeafNotFound);
        }
        self.tabs[a].active_pane = new_id;
        proof {
            let t = old(self)@.tabs[a as int];
            lemma_split_first_leaves(t.tree, t.active_pane, new_id, direction);
            let l = leaves(t.tree);
            let i = first_index(l, t.active_pane);
            assert(leaves(self@.tabs[a as int].tree)[i + 1] == new_id);
            assert(self@.tabs =~= old(self)@.tabs.update(a as int, split_tab(t, new_id, direction)));
            assert forall|j: int| 0 <= j < self@.tabs.len() implies leaves(
                #[trigger] self@.tabs[j].tree,
            ).contains(self@.tabs[j].active_pane) by {
                if j != a {
                    assert(self@.tabs[j] == old(self)@.tabs[j]);
                }
            }
            assert(split_outcome(old(self)@, self@, Ok(()), new_id, kind, session, direction));
        }
        Ok(())
    }

    /// Split the active pane, putting a new terminal pane with `session`
    /// beside it (`Horizontal`) or below it (`Vertical`); the new pane
    /// becomes active.
    pub fn split_active(&mut self, direction: SplitDirection, session: S) -> (r: Result<(), MuxError>)
        requires
            old(self).wf(),
        ensures
            final(self).wf(),
            final(self).session_size() == old(self).session_size(),
            exists|p: PaneId|
                #[trigger] split_outcome(
                    old(self)@,
                    final(self)@,
                    r,
                    p,
                    PaneKind::Terminal,
                    Some(session),
                    direction,
                ),
    {
        self.attach_split(PaneKind::Terminal, Some(session), direction)
    }

    /// Open an AI chat pane beside the active pane and make it active.
    pub fn open_ai_chat(&mut self, title: &str) -> (r: Result<(), MuxError>)
        requires
            old(self).wf(),
        ensures
            final(self).wf(),
            final(self).session_size() == old(self).session_size(),
            exists|p: PaneId|
                #[trigger] split_outcome(
                    old(self)@,
                    final(self)@,
                    r,
                    p,
                    PaneKind::AiChat,
                    None,
                    SplitDirection::Horizontal,
                ),
    {
        self.attach_split(PaneKind::AiChat, None, SplitDirection::Horizontal)
    }

    /// Move focus of the active tab to the nearest of its panes that lies
    /// wholly in direction `dir` of its active pane, by where `rects` says the
    /// panes were laid out; focus stays when there is none (see
    /// [`focus_target`]).
    pub fn focus_direction(&mut self, dir: FocusDir, rects: &Vec<PaneRect>)
        requires
            old(self).wf(),
        ensures
            final(self).wf(),
            final(self).session_size() == old(self).session_size(),
            ({
                let a = old(self)@.active_tab as int;
                if a < old(self)@.tabs.len() {
                    let t = old(self)@.tabs[a];
                    match focus_target(rects@, leaves(t.tree), t.active_pane, dir) {
                        Some(p) => final(self)@ == old(self)@.with_tabs(
                            old(self)@.tabs.update(a, with_active(t, p)),
                            old(self)@.active_tab,
                        ),
                        None => final(self)@ == old(self)@,
                    }
                } else {
                    final(self)@ == old(self)@
                }
            }),
    {
        if self.active_tab >= self.tabs.len() {
            return;
        }
        let a = self.active_tab;
        let ids = collect_leaves(&self.tabs[a].tree);
        let k = match first_rect_of(rects, self.tabs[a].active_pane) {
            Some(k) => k,
            None => {
                return;
            },
        };
        let from = rects[k];
        let i = match nearest_toward_exec(rects, &ids, from, dir) {
            Some(i) => i,
            None => {
                proof {
                    let kk = choose|kk: int| is_first_rect(rects@, old(self)@.tabs[a as int].active_pane, kk);
                    assert(kk == k) by {
                        if kk < k {
                            assert(rects@[kk].pane != old(self)@.tabs[a as int].active_pane);
                        } else if k < kk {
                            assert(rects@[k as int].pane != old(self)@.tabs[a as int].active_pane);
                        }
                    }
                }
                return;
            },
        };
        let target = rects[i].pane;
        self.tabs[a].active_pane = target;
        proof {
            let t = old(self)@.tabs[a as int];
            let kk = choose|kk: int| is_first_rect(rects@, t.active_pane, kk);
            assert(kk == k) by {
                if kk < k {
                    assert(rects@[kk].pane != t.active_pane);
                } else if k < kk {
                    assert(rects@[k as int].pane != t.active_pane);
                }
            }
            assert(is_candidate(rects@, ids@, from, dir, i as int));
            assert(leaves(t.tree).contains(target));
            assert(focus_target(rects@, leaves(t.tree), t.active_pane, dir) == Some(target));
            assert(self@.tabs =~= old(self)@.tabs.update(a as int, with_active(t, target)));
            assert forall|j: int| 0 <= j < self@.tabs.len() implies leaves(
                #[trigger] self@.tabs[j].tree,
            ).contains(self@.tabs[j].active_pane) by {
                if j != a {
                    assert(self@.tabs[j] == old(self)@.tabs[j]);
                }
            }
        }
    }

    /// Record a new window size in cells (each at least 1) for the sessions;
    /// the caller resizes the running sessions to the size returned.
    pub fn resize_all(&mut self, cols: u16, rows: u16) -> (size: (u16, u16))
        ensures
            size == (max1_u16(cols), max1_u16(rows)),
            final(self).session_size() == (size.0, size.1, old(self).session_size().2),
            final(self)@ == (MuxView { cols: size.0, rows: size.1, ..old(self)@ }),
    {
        self.cols = if cols < 1 {
            1
        } else {
            cols
        };
        self.rows = if rows < 1 {
            1
        } else {
            rows
        };
        (self.cols, self.rows)
    }

    /// The tabs, in order.
    pub fn tabs(&self) -> (t: &Vec<Tab>)
        ensures
            t@ == self@.tabs,
    {
        &self.tabs
    }

    /// The index of the active tab.
    pub fn active_index(&self) -> (i: usize)
        ensures
            i == self@.active_tab,
    {
        self.active_tab
    }

    /// The panes of all tabs, by identifier.
    pub fn panes(&self) -> (p: &HashMap<u128, Pane<S>>)
        ensures
            p@ == self@.panes,
    {
        &self.panes
    }

    /// The active tab, if any.
    pub fn active_tab(&self) -> (t: Option<&Tab>)
        ensures
            t == (if self@.active_tab < self@.tabs.len() {
                Some(&self@.tabs[self@.active_tab as int])
            } else {
                None::<&Tab>
            }),
    {
        if self.active_tab < self.tabs.len() {
            Some(&self.tabs[self.active_tab])
        } else {
            None
        }
    }
}

} // verus!
