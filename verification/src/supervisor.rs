//! The task-supervision tree: every task runs under a node, a child node's
//! cancellation is derived from its parent's, and shutting a node down
//! cancels and joins its whole subtree.
//!
//! This models the bookkeeping of the supervision primitive: which nodes
//! exist, how cancellation flows down the tree, and which tasks are still
//! running. The asynchronous runtime that executes the tasks lives outside
//! the library and mirrors these rules.

use vstd::prelude::*;

verus! {

/// One supervisor node: its parent, whether cancellation was signalled on
/// it directly, and the running state of each task spawned under it.
#[derive(Debug, Clone, PartialEq)]
pub struct SupervisorNode {
    pub parent: Option<usize>,
    pub flag: bool,
    pub tasks: Vec<bool>,
}

/// The tree of supervisor nodes. Nodes are identified by index; a child is
/// always created after its parent, so parent indices point strictly
/// downward.
#[derive(Debug, Clone, PartialEq)]
pub struct ThreadManager {
    pub nodes: Vec<SupervisorNode>,
}

impl ThreadManager {
    /// Parent links point at earlier nodes.
    pub open spec fn wf(&self) -> bool {
        forall|i: int| 0 <= i < self.nodes@.len()
            ==> match (#[trigger] self.nodes@[i]).parent {
                Some(p) => p < i,
                None => true,
            }
    }

    pub open spec fn is_node(&self, i: int) -> bool {
        0 <= i < self.nodes@.len()
    }

    /// A node is cancelled when its own signal fired or any ancestor's did:
    /// the child's cancellation is causally derived from the parent's, so a
    /// child registered under an already-cancelled parent is born cancelled
    /// and no cancellation can be missed.
    pub open spec fn is_cancelled_at(&self, i: int) -> bool
        recommends
            self.wf(),
            self.is_node(i),
        decreases i,
    {
        if 0 <= i < self.nodes@.len() {
            self.nodes@[i].flag || match self.nodes@[i].parent {
                Some(p) => if p < i {
                    self.is_cancelled_at(p as int)
                } else {
                    false
                },
                None => false,
            }
        } else {
            false
        }
    }

    /// Node `i` lies in the subtree rooted at `a` (including `a` itself).
    pub open spec fn in_subtree(&self, i: int, a: int) -> bool
        recommends
            self.wf(),
        decreases i,
    {
        if i == a {
            true
        } else if 0 <= i < self.nodes@.len() {
            match self.nodes@[i].parent {
                Some(p) => if p < i {
                    self.in_subtree(p as int, a)
                } else {
                    false
                },
                None => false,
            }
        } else {
            false
        }
    }

    /// A fresh tree holding one root node with its own, unsignalled
    /// cancellation.
    pub fn new() -> (r: Self)
        ensures
            r.wf(),
            r.nodes@.len() == 1,
            !r.is_cancelled_at(0),
            r.nodes@[0].tasks@.len() == 0,
    {
        let root = SupervisorNode { parent: None, flag: false, tasks: Vec::new() };
        let mut nodes: Vec<SupervisorNode> = Vec::new();
        nodes.push(root);
        Self { nodes }
    }

    /// Register a new child node under `parent`. Its cancellation is
    /// derived from the parent's: if the parent is already cancelled, the
    /// new child is immediately cancelled too.
    pub fn child(&mut self, parent: usize) -> (r: usize)
        requires
            old(self).wf(),
            old(self).is_node(parent as int),
        ensures
            final(self).wf(),
            final(self).is_node(r as int),
            r == old(self).nodes@.len(),
            final(self).nodes@.len() == old(self).nodes@.len() + 1,
            final(self).nodes@.take(old(self).nodes@.len() as int) == old(self).nodes@,
            final(self).nodes@[r as int].parent == Some(parent),
            final(self).nodes@[r as int].tasks@.len() == 0,
            final(self).is_cancelled_at(r as int) == old(self).is_cancelled_at(parent as int),
            forall|i: int| old(self).is_node(i)
                ==> final(self).is_cancelled_at(i) == old(self).is_cancelled_at(i),
    {
        let id = self.nodes.len();
        let node = SupervisorNode { parent: Some(parent), flag: false, tasks: Vec::new() };
        self.nodes.push(node);
        proof {
            assert(self.nodes@.take(old(self).nodes@.len() as int) =~= old(self).nodes@);
            self.lemma_cancelled_frame(*old(self), self.nodes@.len() - 1);
            assert(final(self).is_cancelled_at(id as int)
                == old(self).is_cancelled_at(parent as int));
        }
        id
    }

    /// Cancellation at nodes below `bound` agrees between two trees whose
    /// node lists agree below `bound`.
    proof fn lemma_cancelled_frame(&self, other: Self, bound: int)
        requires
            bound <= self.nodes@.len(),
            bound <= other.nodes@.len(),
            forall|i: int| 0 <= i < bound ==> self.nodes@[i] == other.nodes@[i],
            self.wf(),
            other.wf(),
        ensures
            forall|i: int| 0 <= i < bound
                ==> self.is_cancelled_at(i) == other.is_cancelled_at(i),
        decreases bound,
    {
        if bound > 0 {
            self.lemma_cancelled_frame(other, bound - 1);
            let i = bound - 1;
            assert(self.nodes@[i] == other.nodes@[i]);
            match self.nodes@[i].parent {
                Some(p) => {
                    assert(p < i);
                    assert(self.is_cancelled_at(p as int) == other.is_cancelled_at(p as int));
                }
                None => {}
            }
            assert(self.is_cancelled_at(i) == other.is_cancelled_at(i));
        }
    }

    /// Record one task spawned under `node`. A task spawned on a cancelled
    /// node is abandoned at once (it races the already-fired signal), so it
    /// is recorded as not running.
    pub fn spawn(&mut self, node: usize) -> (r: usize)
        requires
            old(self).wf(),
            old(self).is_node(node as int),
        ensures
            final(self).wf(),
            final(self).nodes@.len() == old(self).nodes@.len(),
            r == old(self).nodes@[node as int].tasks@.len(),
            final(self).nodes@[node as int].tasks@
                == old(self).nodes@[node as int].tasks@.push(!old(self).is_cancelled_at(node as int)),
            final(self).nodes@[node as int].parent == old(self).nodes@[node as int].parent,
            final(self).nodes@[node as int].flag == old(self).nodes@[node as int].flag,
            forall|i: int| old(self).is_node(i) && i != node
                ==> final(self).nodes@[i] == old(self).nodes@[i],
            forall|i: int| old(self).is_node(i)
                ==> final(self).is_cancelled_at(i) == old(self).is_cancelled_at(i),
    {
        let cancelled = self.is_cancelled(node);
        let r = self.nodes[node].tasks.len();
        self.nodes[node].tasks.push(!cancelled);
        proof {
            assert forall|i: int| 0 <= i < self.nodes@.len()
                implies final(self).is_cancelled_at(i) == old(self).is_cancelled_at(i) by {
                self.lemma_cancelled_same_shape(*old(self), i);
            }
        }
        r
    }

    /// Like `spawn`, for work re-invoked until cancellation: one supervised
    /// task from the tree's point of view.
    pub fn spawn_loop(&mut self, node: usize) -> (r: usize)
        requires
            old(self).wf(),
            old(self).is_node(node as int),
        ensures
            final(self).wf(),
            final(self).nodes@.len() == old(self).nodes@.len(),
            r == old(self).nodes@[node as int].tasks@.len(),
            final(self).nodes@[node as int].tasks@
                == old(self).nodes@[node as int].tasks@.push(!old(self).is_cancelled_at(node as int)),
            forall|i: int| old(self).is_node(i) && i != node
                ==> final(self).nodes@[i] == old(self).nodes@[i],
            forall|i: int| old(self).is_node(i)
                ==> final(self).is_cancelled_at(i) == old(self).is_cancelled_at(i),
    {
        self.spawn(node)
    }

    /// Cancellation agrees between trees of one shape whose flags and
    /// parents agree everywhere.
    proof fn lemma_cancelled_same_shape(&self, other: Self, i: int)
        requires
            self.wf(),
            other.wf(),
            self.nodes@.len() == other.nodes@.len(),
            forall|j: int| 0 <= j < self.nodes@.len()
                ==> (#[trigger] self.nodes@[j]).flag == other.nodes@[j].flag
                    && self.nodes@[j].parent == other.nodes@[j].parent,
        ensures
            self.is_cancelled_at(i) == other.is_cancelled_at(i),
        decreases (if i >= 0 { i + 1 } else { 0 }),
    {
        if 0 <= i < self.nodes@.len() {
            match self.nodes@[i].parent {
                Some(p) => {
                    self.lemma_cancelled_same_shape(other, p as int);
                }
                None => {}
            }
        }
    }

    /// Whether the node observes cancellation, its own or an ancestor's.
    pub fn is_cancelled(&self, node: usize) -> (r: bool)
        requires
            self.wf(),
            self.is_node(node as int),
        ensures
            r == self.is_cancelled_at(node as int),
    {
        let mut cur: usize = node;
        loop
            invariant
                self.wf(),
                self.is_node(cur as int),
                self.is_cancelled_at(node as int) == self.is_cancelled_at(cur as int),
            decreases cur,
        {
            if self.nodes[cur].flag {
                return true;
            }
            match self.nodes[cur].parent {
                Some(p) => {
                    cur = p;
                }
                None => {
                    return false;
                }
            }
        }
    }

    /// Whether `i` lies in the subtree of `node`.
    fn descends(&self, i: usize, node: usize) -> (r: bool)
        requires
            self.wf(),
            self.is_node(i as int),
            self.is_node(node as int),
        ensures
            r == self.in_subtree(i as int, node as int),
    {
        let mut cur: usize = i;
        loop
            invariant
                self.wf(),
                self.is_node(cur as int),
                self.in_subtree(i as int, node as int) == self.in_subtree(cur as int, node as int),
            decreases cur,
        {
            if cur == node {
                return true;
            }
            match self.nodes[cur].parent {
                Some(p) => {
                    cur = p;
                }
                None => {
                    return false;
                }
            }
        }
    }

    /// No task anywhere in the subtree of `node` is still running.
    pub open spec fn subtree_quiet(&self, node: int) -> bool {
        forall|i: int, t: int|
            self.is_node(i) && self.in_subtree(i, node)
                && 0 <= t < self.nodes@[i].tasks@.len()
                ==> !(#[trigger] self.nodes@[i].tasks@[t])
    }

    /// What shutting down the subtree of `node` does to the tree: every
    /// node of the subtree is signalled and its tasks joined, each exactly
    /// once; every node outside it is untouched.
    pub open spec fn shutdown_post(pre: ThreadManager, post: ThreadManager, node: int) -> bool {
        &&& post.nodes@.len() == pre.nodes@.len()
        &&& forall|i: int| pre.is_node(i) && pre.in_subtree(i, node) ==> {
            &&& (#[trigger] post.nodes@[i]).flag
            &&& post.nodes@[i].parent == pre.nodes@[i].parent
            &&& post.nodes@[i].tasks@.len() == pre.nodes@[i].tasks@.len()
            &&& forall|t: int| 0 <= t < post.nodes@[i].tasks@.len()
                ==> !(#[trigger] post.nodes@[i].tasks@[t])
        }
        &&& forall|i: int| pre.is_node(i) && !pre.in_subtree(i, node)
            ==> (#[trigger] post.nodes@[i]) == pre.nodes@[i]
    }

    /// Cooperative shutdown of the subtree rooted at `node`: signal
    /// cancellation on the node and on every descendant, each exactly once,
    /// and wait until every task spawned anywhere in that subtree has
    /// finished. When it returns, no task of the subtree is still running;
    /// everything outside the subtree is untouched. Shutting down twice is
    /// safe: the second call finds the subtree already cancelled and quiet
    /// and changes nothing.
    pub fn shutdown(&mut self, node: usize)
        requires
            old(self).wf(),
            old(self).is_node(node as int),
        ensures
            final(self).wf(),
            Self::shutdown_post(*old(self), *final(self), node as int),
            final(self).subtree_quiet(node as int),
            forall|i: int| old(self).is_node(i) && old(self).in_subtree(i, node as int)
                ==> final(self).is_cancelled_at(i),
    {
        let ghost pre = *old(self);
        let n = self.nodes.len();
        let mut i: usize = 0;
        while i < n
            invariant
                n == self.nodes@.len(),
                n == pre.nodes@.len(),
                self.wf(),
                pre.wf(),
                pre.is_node(node as int),
                i <= n,
                forall|j: int| 0 <= j < n
                    ==> (#[trigger] self.nodes@[j]).parent == pre.nodes@[j].parent,
                forall|j: int| 0 <= j < i && pre.in_subtree(j, node as int) ==> {
                    &&& (#[trigger] self.nodes@[j]).flag
                    &&& self.nodes@[j].tasks@.len() == pre.nodes@[j].tasks@.len()
                    &&& forall|t: int| 0 <= t < self.nodes@[j].tasks@.len()
                        ==> !(#[trigger] self.nodes@[j].tasks@[t])
                },
                forall|j: int| 0 <= j < n && !(0 <= j < i && pre.in_subtree(j, node as int))
                    ==> (#[trigger] self.nodes@[j]) == pre.nodes@[j],
            decreases n - i,
        {
            proof {
                self.lemma_subtree_same_parents(pre, i as int, node as int);
            }
            if self.descends(i, node) {
                let ghost before = *self;
                let len = self.nodes[i].tasks.len();
                let mut finished: Vec<bool> = Vec::new();
                let mut t: usize = 0;
                while t < len
                    invariant
                        t <= len,
                        finished@.len() == t,
                        forall|q: int| 0 <= q < t ==> !(#[trigger] finished@[q]),
                    decreases len - t,
                {
                    finished.push(false);
                    t += 1;
                }
                let parent = self.nodes[i].parent;
                self.nodes[i] = SupervisorNode { parent, flag: true, tasks: finished };
            }
            i += 1;
        }
        proof {
            assert forall|j: int| pre.is_node(j) && pre.in_subtree(j, node as int)
                implies final(self).is_cancelled_at(j) by {
                assert(final(self).nodes@[j].flag);
            }
            assert forall|j: int, t: int|
                final(self).is_node(j) && final(self).in_subtree(j, node as int)
                    && 0 <= t < final(self).nodes@[j].tasks@.len()
                implies !(#[trigger] final(self).nodes@[j].tasks@[t]) by {
                self.lemma_subtree_same_parents(pre, j, node as int);
            }
        }
    }

    /// Subtree membership is a function of the parent links alone.
    proof fn lemma_subtree_same_parents(&self, other: Self, i: int, a: int)
        requires
            self.wf(),
            other.wf(),
            self.nodes@.len() == other.nodes@.len(),
            forall|j: int| 0 <= j < self.nodes@.len()
                ==> (#[trigger] self.nodes@[j]).parent == other.nodes@[j].parent,
        ensures
            self.in_subtree(i, a) == other.in_subtree(i, a),
        decreases (if i >= 0 { i + 1 } else { 0 }),
    {
        if i != a && 0 <= i < self.nodes@.len() {
            match self.nodes@[i].parent {
                Some(p) => {
                    self.lemma_subtree_same_parents(other, p as int, a);
                }
                None => {}
            }
        }
    }

    /// Forceful shutdown: the same cancellation propagation and the same
    /// join-wait, with the tasks told to abort at once rather than at their
    /// next suspension point. In the model the quiescent outcome is the
    /// same as `shutdown`'s.
    pub fn abort_async(&mut self, node: usize)
        requires
            old(self).wf(),
            old(self).is_node(node as int),
        ensures
            final(self).wf(),
            Self::shutdown_post(*old(self), *final(self), node as int),
            final(self).subtree_quiet(node as int),
            forall|i: int| old(self).is_node(i) && old(self).in_subtree(i, node as int)
                ==> final(self).is_cancelled_at(i),
    {
        self.shutdown(node)
    }

    /// How many tasks in the subtree of `node` are still running; zero
    /// exactly when the subtree is quiet.
    pub fn running_in_subtree(&self, node: usize) -> (r: usize)
        requires
            self.wf(),
            self.is_node(node as int),
        ensures
            (r == 0) <==> self.subtree_quiet(node as int),
    {
        let mut count: usize = 0;
        let n = self.nodes.len();
        let mut i: usize = 0;
        while i < n
            invariant
                self.wf(),
                self.is_node(node as int),
                n == self.nodes@.len(),
                i <= n,
                (count == 0) <==> (forall|j: int, q: int|
                    0 <= j < i && self.in_subtree(j, node as int)
                        && 0 <= q < self.nodes@[j].tasks@.len()
                        ==> !(#[trigger] self.nodes@[j].tasks@[q])),
            decreases n - i,
        {
            if self.descends(i, node) {
                let len = self.nodes[i].tasks.len();
                let mut t: usize = 0;
                while t < len
                    invariant
                        self.wf(),
                        self.is_node(node as int),
                        self.is_node(i as int),
                        self.in_subtree(i as int, node as int),
                        n == self.nodes@.len(),
                        i < n,
                        len == self.nodes@[i as int].tasks@.len(),
                        t <= len,
                        (count == 0) <==> ((forall|j: int, q: int|
                            0 <= j < i && self.in_subtree(j, node as int)
                                && 0 <= q < self.nodes@[j].tasks@.len()
                                ==> !(#[trigger] self.nodes@[j].tasks@[q]))
                            && (forall|q: int| 0 <= q < t
                                ==> !(#[trigger] self.nodes@[i as int].tasks@[q]))),
                    decreases len - t,
                {
                    if self.nodes[i].tasks[t] {
                        if count < usize::MAX {
                            count += 1;
                        }
                    }
                    t += 1;
                }
            }
            i += 1;
        }
        count
    }
}

/// Shutting down is idempotent: a second shutdown of the same node finds
/// the subtree already signalled and quiet and leaves the whole tree as it
/// was, node for node.
pub proof fn lemma_shutdown_idempotent(a: ThreadManager, b: ThreadManager, c: ThreadManager, node: int)
    requires
        a.wf(),
        b.wf(),
        c.wf(),
        0 <= node < a.nodes@.len(),
        ThreadManager::shutdown_post(a, b, node),
        ThreadManager::shutdown_post(b, c, node),
    ensures
        c.nodes@.len() == b.nodes@.len(),
        forall|i: int| 0 <= i < b.nodes@.len() ==> {
            &&& (#[trigger] c.nodes@[i]).flag == b.nodes@[i].flag
            &&& c.nodes@[i].parent == b.nodes@[i].parent
            &&& c.nodes@[i].tasks@ == b.nodes@[i].tasks@
        },
{
    assert forall|i: int| 0 <= i < b.nodes@.len() implies {
        &&& (#[trigger] c.nodes@[i]).flag == b.nodes@[i].flag
        &&& c.nodes@[i].parent == b.nodes@[i].parent
        &&& c.nodes@[i].tasks@ == b.nodes@[i].tasks@
    } by {
        b.lemma_subtree_same_parents(a, i, node);
        if a.in_subtree(i, node) {
            assert(b.in_subtree(i, node));
            assert(c.nodes@[i].tasks@ =~= b.nodes@[i].tasks@);
        } else {
            assert(!b.in_subtree(i, node));
            assert(c.nodes@[i] == b.nodes@[i]);
        }
    }
}

} // verus!
