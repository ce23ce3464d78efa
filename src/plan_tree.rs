use vstd::prelude::*;

verus! {

/// An operator of a physical plan, as the query engine describes it: its
/// name, a one-line description, an optional metrics summary, and its inputs
/// in order.
#[derive(Debug)]
pub struct PlanSource {
    pub name: String,
    pub label: String,
    pub metrics: Option<String>,
    pub children: Vec<PlanSource>,
}

/// A node of the renderable plan tree.
#[derive(Debug)]
pub struct PlanNode {
    /// Position of the operator in a pre-order walk of the plan, from 0.
    pub id: u64,
    pub name: String,
    pub label: String,
    pub metrics: Option<String>,
    pub children: Vec<PlanNode>,
}

/// Number of operators in `p`.
pub open spec fn plan_size(p: PlanSource) -> nat
    decreases p, 1int, 0int,
{
    1 + children_before(p, p.children@.len() as int)
}

/// Number of operators in the first `k` inputs of `p`.
pub open spec fn children_before(p: PlanSource, k: int) -> nat
    decreases p, 0int, k,
{
    if k <= 0 || k > p.children@.len() {
        0
    } else {
        children_before(p, k - 1) + plan_size(p.children@[k - 1])
    }
}

/// Whether the metrics of a node are those of its operator.
pub open spec fn same_metrics(a: Option<String>, b: Option<String>) -> bool {
    match (a, b) {
        (Some(x), Some(y)) => x@ == y@,
        (None, None) => true,
        _ => false,
    }
}

/// `n` is the tree of `p` with pre-order ids starting at `id`: same names,
/// descriptions and metrics, and the same inputs in the same order.
pub open spec fn numbered(n: PlanNode, p: PlanSource, id: int) -> bool
    decreases p,
{
    &&& n.id == id
    &&& n.name@ == p.name@
    &&& n.label@ == p.label@
    &&& same_metrics(n.metrics, p.metrics)
    &&& n.children@.len() == p.children@.len()
    &&& forall|k: int|
        0 <= k < p.children@.len() ==> numbered(
            #[trigger] n.children@[k],
            p.children@[k],
            id + 1 + children_before(p, k),
        )
}

/// Builds the tree while a plan is walked: `pre_visit` on entering an
/// operator, `post_visit` on leaving it.
pub struct TreeBuilder {
    next_id: u64,
    current_path: Vec<PlanNode>,
}

impl TreeBuilder {
    pub closed spec fn next_id(&self) -> u64 {
        self.next_id
    }

    /// The operators entered and not yet attached to a parent, outermost first.
    pub closed spec fn path(&self) -> Seq<PlanNode> {
        self.current_path@
    }

    pub fn new() -> (r: TreeBuilder)
        ensures
            r.next_id() == 0,
            r.path() == Seq::<PlanNode>::empty(),
    {
        TreeBuilder { next_id: 0, current_path: Vec::new() }
    }

    /// Enters an operator: a node with the next id and no children yet is
    /// pushed on the path.
    pub fn pre_visit(&mut self, name: String, label: String, metrics: Option<String>)
        requires
            old(self).next_id() < u64::MAX,
        ensures
            final(self).next_id() == old(self).next_id() + 1,
            final(self).path().len() == old(self).path().len() + 1,
            final(self).path().take(old(self).path().len() as int) == old(self).path(),
            final(self).path().last().id == old(self).next_id(),
            final(self).path().last().name == name,
            final(self).path().last().label == label,
            final(self).path().last().metrics == metrics,
            final(self).path().last().children@ == Seq::<PlanNode>::empty(),
    {
        let node = PlanNode { id: self.next_id, name, label, metrics, children: Vec::new() };
        self.next_id = self.next_id + 1;
        self.current_path.push(node);
        assert(self.current_path@.take(old(self).current_path@.len() as int) =~= old(self).current_path@);
    }

    /// Leaves an operator: its node is popped and appended as the last child
    /// of the node below it, unless it is the root.
    pub fn post_visit(&mut self)
        ensures
            final(self).next_id() == old(self).next_id(),
            old(self).path().len() < 2 ==> final(self).path() == old(self).path(),
            old(self).path().len() >= 2 ==> ({
                let n = old(self).path().len();
                let parent = old(self).path()[n - 2];
                &&& final(self).path().len() == n - 1
                &&& final(self).path().take(n - 2) == old(self).path().take(n - 2)
                &&& final(self).path()[n - 2].id == parent.id
                &&& final(self).path()[n - 2].name == parent.name
                &&& final(self).path()[n - 2].label == parent.label
                &&& final(self).path()[n - 2].metrics == parent.metrics
                &&& final(self).path()[n - 2].children@ == parent.children@.push(old(self).path()[n - 1])
            }),
    {
        if self.current_path.len() >= 2 {
            let child = match self.current_path.pop() {
                Some(c) => c,
                None => {
                    return;
                },
            };
            let mut parent = match self.current_path.pop() {
                Some(p) => p,
                None => {
                    return;
                },
            };
            parent.children.push(child);
            self.current_path.push(parent);
            proof {
                let n = old(self).path().len();
                assert(self.current_path@.take(n - 2) =~= old(self).current_path@.take(n - 2));
            }
        }
    }

    /// Walks `plan`, entering each operator before its inputs and leaving it
    /// after them, inputs in order.
    pub fn visit(&mut self, plan: &PlanSource)
        requires
            old(self).next_id() + plan_size(*plan) <= u64::MAX,
        ensures
            final(self).next_id() == old(self).next_id() + plan_size(*plan),
            old(self).path().len() == 0 ==> (final(self).path().len() == 1 && numbered(
                final(self).path()[0],
                *plan,
                old(self).next_id() as int,
            )),
            old(self).path().len() > 0 ==> ({
                let n = old(self).path().len();
                let top = old(self).path()[n - 1];
                let t = final(self).path()[n - 1];
                &&& final(self).path().len() == n
                &&& final(self).path().take(n - 1) == old(self).path().take(n - 1)
                &&& t.id == top.id
                &&& t.name == top.name
                &&& t.label == top.label
                &&& t.metrics == top.metrics
                &&& t.children@.len() == top.children@.len() + 1
                &&& t.children@.take(top.children@.len() as int) == top.children@
                &&& numbered(t.children@.last(), *plan, old(self).next_id() as int)
            }),
        decreases plan,
    {
        let ghost id = self.next_id as int;
        let ghost start = self.current_path@;
        let ghost n = start.len();
        proof {
            lemma_children_before_le(*plan, plan.children@.len() as int, 0);
        }
        self.pre_visit(plan.name.clone(), plan.label.clone(), clone_metrics(&plan.metrics));
        let mut k: usize = 0;
        while k < plan.children.len()
            invariant
                n == start.len(),
                self.current_path@.len() == n + 1,
                self.current_path@.take(n as int) == start,
                self.next_id as int == id + 1 + children_before(*plan, k as int),
                k <= plan.children@.len(),
                id + plan_size(*plan) <= u64::MAX,
                self.current_path@[n as int].id == id,
                self.current_path@[n as int].name@ == plan.name@,
                self.current_path@[n as int].label@ == plan.label@,
                same_metrics(self.current_path@[n as int].metrics, plan.metrics),
                self.current_path@[n as int].children@.len() == k,
                forall|j: int|
                    0 <= j < k ==> numbered(
                        #[trigger] self.current_path@[n as int].children@[j],
                        plan.children@[j],
                        id + 1 + children_before(*plan, j),
                    ),
            decreases plan.children@.len() - k,
        {
            proof {
                lemma_children_before_le(*plan, plan.children@.len() as int, k + 1);
                assert(children_before(*plan, k + 1) == children_before(*plan, k as int) + plan_size(
                    plan.children@[k as int],
                ));
            }
            let ghost before = self.current_path@;
            self.visit(&plan.children[k]);
            proof {
                let after = self.current_path@;
                assert(after.take(n as int) =~= before.take(n as int)) by {
                    assert(after.take(n as int) =~= after.take(n + 1 - 1).take(n as int));
                    assert(before.take(n as int) =~= before.take(n + 1 - 1).take(n as int));
                }
                let top = after[n as int];
                let old_top = before[n as int];
                assert forall|j: int| 0 <= j < k + 1 implies numbered(
                    #[trigger] top.children@[j],
                    plan.children@[j],
                    id + 1 + children_before(*plan, j),
                ) by {
                    if j < k {
                        assert(top.children@[j] == top.children@.take(k as int)[j]);
                        assert(old_top.children@[j] == top.children@[j]);
                    }
                }
            }
            k = k + 1;
        }
        proof {
            assert(children_before(*plan, plan.children@.len() as int) == plan_size(*plan) - 1);
        }
        let ghost before_post = self.current_path@;
        self.post_visit();
        proof {
            let node = before_post[n as int];
            assert(numbered(node, *plan, id));
            if n == 0 {
                assert(self.current_path@ == before_post);
            } else {
                let after = self.current_path@;
                assert(after.take(n - 1) =~= before_post.take(n - 1));
                assert(before_post.take(n - 1) =~= start.take(n - 1)) by {
                    assert(before_post.take(n - 1) =~= before_post.take(n as int).take(n - 1));
                }
                assert(before_post[n - 1] == start[n - 1]) by {
                    assert(before_post.take(n as int)[n - 1] == before_post[n - 1]);
                }
                assert(after[n - 1].children@.take(start[n - 1].children@.len() as int) =~= start[n
                    - 1].children@);
            }
        }
    }

    /// The finished tree: the single node left on the path.
    pub fn finish(self) -> (r: Option<PlanNode>)
        ensures
            self.path().len() == 1 ==> r == Some(self.path()[0]),
            self.path().len() != 1 ==> r is None,
    {
        let mut path = self.current_path;
        if path.len() == 1 {
            path.pop()
        } else {
            None
        }
    }
}

fn clone_metrics(m: &Option<String>) -> (r: Option<String>)
    ensures
        same_metrics(r, *m),
{
    match m {
        Some(s) => Some(s.clone()),
        None => None,
    }
}

proof fn lemma_children_before_le(p: PlanSource, k: int, j: int)
    requires
        0 <= j <= k <= p.children@.len(),
    ensures
        children_before(p, j) <= children_before(p, k),
    decreases k - j,
{
    if j < k {
        lemma_children_before_le(p, k - 1, j);
    }
}

/// Converts a physical plan into its renderable tree: one node per operator,
/// ids in pre-order from 0, inputs in the plan's order.
pub fn build_plan_tree(plan: &PlanSource) -> (r: PlanNode)
    requires
        plan_size(*plan) <= u64::MAX,
    ensures
        numbered(r, *plan, 0),
{
    let mut builder = TreeBuilder::new();
    builder.visit(plan);
    builder.finish().unwrap()
}

/// `a` and `b` are the same tree: same ids, names, descriptions, metrics,
/// and the same children in the same order.
pub open spec fn same_tree(a: PlanNode, b: PlanNode) -> bool
    decreases a,
{
    &&& a.id == b.id
    &&& a.name@ == b.name@
    &&& a.label@ == b.label@
    &&& same_metrics(a.metrics, b.metrics)
    &&& a.children@.len() == b.children@.len()
    &&& forall|k: int|
        0 <= k < a.children@.len() ==> same_tree(#[trigger] a.children@[k], b.children@[k])
}

/// The tree of a plan is determined by the plan: converting the same plan
/// twice gives the same tree, children in the same order.
pub proof fn lemma_plan_tree_is_determined(p: PlanSource, id: int, a: PlanNode, b: PlanNode)
    requires
        numbered(a, p, id),
        numbered(b, p, id),
    ensures
        same_tree(a, b),
    decreases p,
{
    assert forall|k: int| 0 <= k < a.children@.len() implies same_tree(
        #[trigger] a.children@[k],
        b.children@[k],
    ) by {
        assert(numbered(a.children@[k], p.children@[k], id + 1 + children_before(p, k)));
        assert(numbered(b.children@[k], p.children@[k], id + 1 + children_before(p, k)));
        lemma_plan_tree_is_determined(p.children@[k], id + 1 + children_before(p, k), a.children@[k], b.children@[k]);
    }
}

} // verus!
