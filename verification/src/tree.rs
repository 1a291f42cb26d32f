//! The command tree: nodes with canonical mnemonics, kept in one list in
//! which every node stands behind its parent.

use vstd::prelude::*;
use vstd::slice::slice_to_vec;
use crate::mnemonic::{mnemonic_eq, mnemonic_equivalent};

verus! {

/// A node of the command tree.
pub struct Node<H> {
    name: Vec<u8>,
    default: bool,
    handler: Option<H>,
    parent: usize,
}

/// The model of a node.
pub struct NodeView {
    /// The canonical mnemonic; a common command has its `*` in it.
    pub name: Seq<u8>,
    /// Whether the node is entered without being named.
    pub default: bool,
    /// Whether the node has a handler.
    pub has_handler: bool,
    /// The index of the parent.
    pub parent: int,
}

impl<H> View for Node<H> {
    type V = NodeView;

    closed spec fn view(&self) -> NodeView {
        NodeView {
            name: self.name@,
            default: self.default,
            has_handler: self.handler is Some,
            parent: self.parent as int,
        }
    }
}

/// What is looked for among the children of a node.
pub enum Seek<'a> {
    /// The child that a received mnemonic names.
    Named(&'a [u8]),
    /// The default child.
    Default,
    /// The common command that a received mnemonic names; the name of the
    /// node starts with `*`.
    Common(&'a [u8]),
}

/// The model of what is looked for.
pub enum SeekView {
    Named(Seq<u8>),
    Default,
    Common(Seq<u8>),
}

impl<'a> View for Seek<'a> {
    type V = SeekView;

    open spec fn view(&self) -> SeekView {
        match *self {
            Seek::Named(m) => SeekView::Named(m@),
            Seek::Default => SeekView::Default,
            Seek::Common(m) => SeekView::Common(m@),
        }
    }
}

/// Whether two canonical mnemonics can be taken for one another.
pub open spec fn clashes(a: Seq<u8>, b: Seq<u8>) -> bool {
    mnemonic_equivalent(a, b) || mnemonic_equivalent(b, a)
}

impl NodeView {
    /// Whether the node is what is looked for.
    pub open spec fn fits(self, seek: SeekView) -> bool {
        match seek {
            SeekView::Named(m) => mnemonic_equivalent(self.name, m),
            SeekView::Default => self.default,
            SeekView::Common(m) => self.name.len() > 0 && self.name[0] == 0x2a
                && mnemonic_equivalent(self.name.drop_first(), m),
        }
    }
}

/// The model of a tree: its nodes, the root first.
pub struct TreeView {
    pub nodes: Seq<NodeView>,
}

impl TreeView {
    /// Whether `j` is a child of `parent`.
    pub open spec fn is_child(self, j: int, parent: int) -> bool {
        1 <= j < self.nodes.len() && self.nodes[j].parent == parent
    }

    /// The tree has a root without a name, every other node stands behind
    /// its parent, and among the children of a node no two mnemonics can be
    /// taken for one another and at most one child is the default.
    pub open spec fn wf(self) -> bool {
        &&& 1 <= self.nodes.len() <= usize::MAX
        &&& self.nodes[0].parent == 0
        &&& self.nodes[0].name.len() == 0
        &&& forall|j: int| 1 <= j < self.nodes.len() ==> 0 <= (#[trigger] self.nodes[j]).parent < j
        &&& forall|j: int, k: int|
            1 <= j < k < self.nodes.len() && (#[trigger] self.nodes[j]).parent == (
            #[trigger] self.nodes[k]).parent ==> !(self.nodes[j].default && self.nodes[k].default)
                && !clashes(self.nodes[j].name, self.nodes[k].name)
    }

    /// The first child of `parent` at or behind `from` that is what is
    /// looked for.
    pub open spec fn find(self, parent: int, from: int, seek: SeekView) -> Option<int>
        decreases self.nodes.len() - from,
    {
        if from >= self.nodes.len() {
            None
        } else if self.is_child(from, parent) && self.nodes[from].fits(seek) {
            Some(from)
        } else {
            self.find(parent, from + 1, seek)
        }
    }

    /// The child of `parent` that is what is looked for.
    pub open spec fn child(self, parent: int, seek: SeekView) -> Option<int> {
        self.find(parent, 1, seek)
    }

    /// The node that the mnemonic `m` leads to from `node`: the child that
    /// it names, or, where it names none and `node` has a default child,
    /// the node that it leads to from there.
    pub open spec fn descend(self, node: int, m: Seq<u8>) -> Option<int>
        decreases self.nodes.len() - node,
    {
        match self.child(node, SeekView::Named(m)) {
            Some(c) => Some(c),
            None => match self.child(node, SeekView::Default) {
                Some(d) => if node < d < self.nodes.len() {
                    self.descend(d, m)
                } else {
                    None
                },
                None => None,
            },
        }
    }

    /// The node whose handler runs where a header ends at `node`: the node
    /// itself where it has a handler, or else what its default child gives.
    pub open spec fn terminal(self, node: int) -> Option<int>
        decreases self.nodes.len() - node,
    {
        if !(0 <= node < self.nodes.len()) {
            None
        } else if self.nodes[node].has_handler {
            Some(node)
        } else {
            match self.child(node, SeekView::Default) {
                Some(d) => if node < d < self.nodes.len() {
                    self.terminal(d)
                } else {
                    None
                },
                None => None,
            }
        }
    }

    /// The number of steps from the root to `node`.
    pub open spec fn depth(self, node: int) -> nat
        decreases node,
    {
        if node <= 0 || node >= self.nodes.len() || !(0 <= self.nodes[node].parent < node) {
            0
        } else {
            1 + self.depth(self.nodes[node].parent)
        }
    }

    /// Whether a node with this name can be put under `parent`.
    pub open spec fn can_add(self, parent: int, name: Seq<u8>, default: bool) -> bool {
        &&& 0 <= parent < self.nodes.len()
        &&& self.nodes.len() < usize::MAX
        &&& name.len() > 0
        &&& forall|j: int|
            self.is_child(j, parent) ==> !clashes((#[trigger] self.nodes[j]).name, name) && !(
            default && self.nodes[j].default)
    }
}

/// What is found is a child of the parent, fits, and is the first to do
/// so; where nothing is found, no child fits.
pub proof fn lemma_find(tree: TreeView, parent: int, from: int, seek: SeekView)
    requires
        1 <= from,
    ensures
        match tree.find(parent, from, seek) {
            Some(c) => from <= c && tree.is_child(c, parent) && tree.nodes[c].fits(seek)
                && forall|j: int|
                from <= j < c ==> !(tree.is_child(j, parent) && (#[trigger] tree.nodes[j]).fits(
                    seek,
                )),
            None => forall|j: int|
                from <= j < tree.nodes.len() ==> !(tree.is_child(j, parent) && (
                #[trigger] tree.nodes[j]).fits(seek)),
        },
    decreases tree.nodes.len() - from,
{
    if from < tree.nodes.len() && !(tree.is_child(from, parent) && tree.nodes[from].fits(seek)) {
        lemma_find(tree, parent, from + 1, seek);
    }
}

/// The parent of a node other than the root is one step nearer to the
/// root.
pub proof fn lemma_depth_of_parent(tree: TreeView, node: int)
    requires
        tree.wf(),
        1 <= node < tree.nodes.len(),
    ensures
        tree.depth(tree.nodes[node].parent) == tree.depth(node) - 1,
        0 <= tree.nodes[node].parent < node,
{
}

/// What a mnemonic leads to lies deeper than where it was looked up, and
/// so does the node whose handler runs, unless that is the node itself.
pub proof fn lemma_descend(tree: TreeView, node: int, m: Seq<u8>)
    requires
        tree.wf(),
        0 <= node < tree.nodes.len(),
    ensures
        tree.descend(node, m) matches Some(c) ==> node < c < tree.nodes.len(),
        tree.terminal(node) matches Some(t) ==> node <= t < tree.nodes.len()
            && tree.nodes[t].has_handler,
    decreases tree.nodes.len() - node,
{
    lemma_find(tree, node, 1, SeekView::Named(m));
    lemma_find(tree, node, 1, SeekView::Default);
    match tree.child(node, SeekView::Default) {
        Some(d) => {
            if node < d < tree.nodes.len() {
                lemma_descend(tree, d, m);
            }
        },
        None => {},
    }
}

/// A command tree whose handlers are of type `H`.
pub struct Tree<H> {
    nodes: Vec<Node<H>>,
}

impl<H> View for Tree<H> {
    type V = TreeView;

    closed spec fn view(&self) -> TreeView {
        TreeView { nodes: Seq::new(self.nodes@.len(), |i: int| self.nodes@[i]@) }
    }
}

impl<H> Tree<H> {
    /// The handler of a node.
    pub closed spec fn handler_of(&self, node: int) -> Option<H> {
        self.nodes@[node].handler
    }

    /// A tree that consists of its root.
    pub fn new() -> (r: Self)
        ensures
            r@.wf(),
            r@.nodes == seq![
                NodeView { name: Seq::<u8>::empty(), default: false, has_handler: false, parent: 0 },
            ],
    {
        let mut nodes: Vec<Node<H>> = Vec::new();
        nodes.push(Node { name: Vec::new(), default: false, handler: None, parent: 0 });
        let tree = Tree { nodes };
        proof {
            assert(tree@.nodes =~= seq![
                NodeView { name: Seq::<u8>::empty(), default: false, has_handler: false, parent: 0 },
            ]);
        }
        tree
    }

    /// The number of nodes, the root included.
    pub fn len(&self) -> (r: usize)
        ensures
            r == self@.nodes.len(),
    {
        self.nodes.len()
    }

    /// The parent of a node; the root for the root and for an index that
    /// names no node.
    pub fn parent_of(&self, node: usize) -> (r: usize)
        ensures
            r == if node < self@.nodes.len() {
                self@.nodes[node as int].parent
            } else {
                0
            },
    {
        if node < self.nodes.len() {
            self.nodes[node].parent
        } else {
            0
        }
    }

    /// The handler of a node, if it has one; none for an index that names no
    /// node.
    pub fn handler(&self, node: usize) -> (r: Option<&H>)
        ensures
            r is Some == (node < self@.nodes.len() && self@.nodes[node as int].has_handler),
            r matches Some(h) ==> self.handler_of(node as int) == Some(*h),
    {
        if node < self.nodes.len() {
            self.nodes[node].handler.as_ref()
        } else {
            None
        }
    }

    /// Whether the node at `j` is what is looked for.
    fn fits(&self, j: usize, seek: &Seek<'_>) -> (r: bool)
        requires
            j < self@.nodes.len(),
        ensures
            r == self@.nodes[j as int].fits(seek@),
    {
        let node = &self.nodes[j];
        match seek {
            Seek::Named(m) => mnemonic_eq(node.name.as_slice(), m),
            Seek::Default => node.default,
            Seek::Common(m) => {
                let name = node.name.as_slice();
                if name.len() > 0 && name[0] == 0x2a {
                    let rest = vstd::slice::slice_subrange(name, 1, name.len());
                    proof {
                        assert(rest@ =~= name@.drop_first());
                    }
                    mnemonic_eq(rest, m)
                } else {
                    false
                }
            },
        }
    }

    /// Looks among the children of `parent` for the first that is what is
    /// looked for.
    pub fn find(&self, parent: usize, seek: &Seek<'_>) -> (r: Option<usize>)
        ensures
            match (r, self@.child(parent as int, seek@)) {
                (Some(c), Some(d)) => c == d && c < self@.nodes.len(),
                (None, None) => true,
                _ => false,
            },
    {
        let mut j: usize = 1;
        while j < self.nodes.len()
            invariant
                1 <= j,
                self@.child(parent as int, seek@) == self@.find(parent as int, j as int, seek@),
            decreases self.nodes.len() - j,
        {
            if self.nodes[j].parent == parent && self.fits(j, seek) {
                return Some(j);
            }
            j += 1;
        }
        None
    }

    /// Follows a received mnemonic from `node`: to the child that it names,
    /// or through the default child where it names none.
    pub fn descend(&self, node: usize, mnemonic: &[u8]) -> (r: Option<usize>)
        requires
            self@.wf(),
        ensures
            match (r, self@.descend(node as int, mnemonic@)) {
                (Some(c), Some(d)) => c == d && c < self@.nodes.len(),
                (None, None) => true,
                _ => false,
            },
    {
        let mut at = node;
        loop
            invariant
                self@.wf(),
                self@.descend(node as int, mnemonic@) == self@.descend(at as int, mnemonic@),
            decreases self@.nodes.len() - at,
        {
            match self.find(at, &Seek::Named(mnemonic)) {
                Some(c) => {
                    return Some(c);
                },
                None => {},
            }
            match self.find(at, &Seek::Default) {
                Some(d) => {
                    if d <= at {
                        return None;
                    }
                    at = d;
                },
                None => {
                    return None;
                },
            }
        }
    }

    /// Finds the node whose handler runs where a header ends at `node`.
    pub fn terminal(&self, node: usize) -> (r: Option<usize>)
        requires
            self@.wf(),
        ensures
            match (r, self@.terminal(node as int)) {
                (Some(c), Some(d)) => c == d && c < self@.nodes.len()
                    && self@.nodes[d].has_handler,
                (None, None) => true,
                _ => false,
            },
    {
        let mut at = node;
        loop
            invariant
                self@.wf(),
                self@.terminal(node as int) == self@.terminal(at as int),
            decreases self@.nodes.len() - at,
        {
            if at >= self.nodes.len() {
                return None;
            }
            if self.nodes[at].handler.is_some() {
                return Some(at);
            }
            match self.find(at, &Seek::Default) {
                Some(d) => {
                    if d <= at {
                        return None;
                    }
                    at = d;
                },
                None => {
                    return None;
                },
            }
        }
    }

    /// The number of steps from the root to `node`.
    pub fn depth(&self, node: usize) -> (r: usize)
        requires
            self@.wf(),
        ensures
            r == self@.depth(node as int),
    {
        if node >= self.nodes.len() {
            return 0;
        }
        let mut at = node;
        let mut steps: usize = 0;
        while at > 0
            invariant
                self@.wf(),
                at < self@.nodes.len(),
                steps + self@.depth(at as int) == self@.depth(node as int),
                steps + at <= node,
            decreases at,
        {
            at = self.nodes[at].parent;
            steps += 1;
        }
        steps
    }

    /// Whether a node with this name can be put under `parent`.
    fn accepts(&self, parent: usize, name: &[u8], default: bool) -> (r: bool)
        ensures
            r == self@.can_add(parent as int, name@, default),
    {
        if parent >= self.nodes.len() || self.nodes.len() >= usize::MAX || name.len() == 0 {
            return false;
        }
        let mut j: usize = 1;
        while j < self.nodes.len()
            invariant
                1 <= j,
                forall|k: int|
                    1 <= k < j && self@.is_child(k, parent as int) ==> !clashes(
                        (#[trigger] self@.nodes[k]).name,
                        name@,
                    ) && !(default && self@.nodes[k].default),
            decreases self.nodes.len() - j,
        {
            let node = &self.nodes[j];
            if node.parent == parent {
                if (default && node.default) || mnemonic_eq(node.name.as_slice(), name)
                    || mnemonic_eq(name, node.name.as_slice()) {
                    proof {
                        assert(self@.nodes[j as int] == node@);
                        assert(self@.is_child(j as int, parent as int));
                    }
                    return false;
                }
            }
            j += 1;
        }
        true
    }

    /// Puts a node under `parent` and returns its index. Nothing is added,
    /// and `None` is returned, where `parent` names no node, where the name
    /// is empty or can be taken for that of another child of `parent`, or
    /// where a second default child would be added.
    pub fn add(&mut self, parent: usize, name: &[u8], default: bool, handler: Option<H>) -> (r:
        Option<usize>)
        requires
            old(self)@.wf(),
        ensures
            final(self)@.wf(),
            old(self)@.can_add(parent as int, name@, default) ==> r == Some(
                old(self)@.nodes.len() as usize,
            ) && final(self)@.nodes == old(self)@.nodes.push(
                NodeView {
                    name: name@,
                    default,
                    has_handler: handler is Some,
                    parent: parent as int,
                },
            ),
            !old(self)@.can_add(parent as int, name@, default) ==> r is None && final(self)@
                == old(self)@,
            old(self)@.can_add(parent as int, name@, default) ==> final(self).handler_of(
                old(self)@.nodes.len() as int,
            ) == handler,
            forall|j: int|
                0 <= j < old(self)@.nodes.len() ==> #[trigger] final(self).handler_of(j)
                    == old(self).handler_of(j),
    {
        if !self.accepts(parent, name, default) {
            return None;
        }
        let index = self.nodes.len();
        let ghost before = self@;
        let ghost added = NodeView {
            name: name@,
            default,
            has_handler: handler is Some,
            parent: parent as int,
        };
        self.nodes.push(Node { name: slice_to_vec(name), default, handler, parent });
        proof {
            assert(self@.nodes =~= before.nodes.push(added));
            assert forall|j: int, k: int|
                1 <= j < k < self@.nodes.len() && (#[trigger] self@.nodes[j]).parent == (
                #[trigger] self@.nodes[k]).parent implies !(self@.nodes[j].default
                && self@.nodes[k].default) && !clashes(self@.nodes[j].name, self@.nodes[k].name) by {
                if k == index {
                    assert(before.is_child(j, parent as int));
                    assert(self@.nodes[j] == before.nodes[j]);
                } else {
                    assert(self@.nodes[j] == before.nodes[j]);
                    assert(self@.nodes[k] == before.nodes[k]);
                }
            }
            assert forall|j: int| 1 <= j < self@.nodes.len() implies 0 <= (
            #[trigger] self@.nodes[j]).parent < j by {
                if j < index {
                    assert(self@.nodes[j] == before.nodes[j]);
                }
            }
        }
        Some(index)
    }
}

impl TreeView {
    /// Whether `b` is `a` or is reached from `a` through default children
    /// only.
    pub open spec fn entered_by_default(self, a: int, b: int) -> bool
        decreases b,
    {
        b == a || (0 <= a < b < self.nodes.len() && self.nodes[b].default && 0
            <= self.nodes[b].parent < b && self.entered_by_default(a, self.nodes[b].parent))
    }
}

/// What a mnemonic leads to is a node that it names, and the parent of
/// that node is where the mnemonic was looked up, or is entered from there
/// through default children. A child that the mnemonic names is what it
/// leads to, before any default child is tried. Where the mnemonic leads
/// nowhere, it names no child of the node at which it was looked up.
pub proof fn lemma_descend_names(tree: TreeView, node: int, m: Seq<u8>)
    requires
        tree.wf(),
        0 <= node < tree.nodes.len(),
    ensures
        tree.descend(node, m) matches Some(c) ==> {
            &&& node < c < tree.nodes.len()
            &&& tree.nodes[c].fits(SeekView::Named(m))
            &&& tree.entered_by_default(node, tree.nodes[c].parent)
        },
        tree.descend(node, m) is None ==> forall|j: int|
            tree.is_child(j, node) ==> !(#[trigger] tree.nodes[j]).fits(SeekView::Named(m)),
        tree.child(node, SeekView::Named(m)) matches Some(c) ==> tree.descend(node, m) == Some(c),
    decreases tree.nodes.len() - node,
{
    lemma_find(tree, node, 1, SeekView::Named(m));
    lemma_find(tree, node, 1, SeekView::Default);
    match tree.child(node, SeekView::Named(m)) {
        Some(c) => {},
        None => match tree.child(node, SeekView::Default) {
            Some(d) => {
                if node < d < tree.nodes.len() {
                    lemma_descend_names(tree, d, m);
                    match tree.descend(d, m) {
                        Some(c) => {
                            lemma_entered(tree, node, d, tree.nodes[c].parent);
                        },
                        None => {},
                    }
                }
            },
            None => {},
        },
    }
}

/// A node that is entered by default from a default child of `a` is
/// entered by default from `a`.
proof fn lemma_entered(tree: TreeView, a: int, d: int, b: int)
    requires
        tree.wf(),
        tree.is_child(d, a),
        tree.nodes[d].default,
        0 <= a < d,
        tree.entered_by_default(d, b),
    ensures
        tree.entered_by_default(a, b),
    decreases b,
{
    if b != d {
        lemma_entered(tree, a, d, tree.nodes[b].parent);
    } else {
        assert(tree.entered_by_default(a, a));
        assert(tree.nodes[d].parent == a);
    }
}

} // verus!
