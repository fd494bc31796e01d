use vstd::prelude::*;
use std::collections::HashMap;
use crate::aabb::{Point, area_spec, union_spec, lemma_union_associative, lemma_union_commutes_and_covers};
use crate::data::{BvhData, COORD_BOUND, data_ok, data_union, leaf_data, moments_bounded};

verus! {

broadcast use vstd::std_specs::hash::group_hash_axioms;

/// What a node holds: one body, or two owned subtrees.
#[derive(Debug)]
pub enum BvhContents {
    Leaf { entity: u64 },
    Branch { left: Box<BvhNode>, right: Box<BvhNode> },
}

/// A node of the hierarchy with the summary of every body beneath it.
#[derive(Debug)]
pub struct BvhNode {
    pub data: BvhData,
    pub contents: BvhContents,
}

/// The bodies under `n` from left to right, each as its identity and summary.
pub open spec fn leaves(n: BvhNode) -> Seq<(u64, BvhData)>
    decreases n,
{
    match n.contents {
        BvhContents::Leaf { entity } => seq![(entity, n.data)],
        BvhContents::Branch { left, right } => leaves(*left) + leaves(*right),
    }
}

pub open spec fn branch_count(n: BvhNode) -> nat
    decreases n,
{
    match n.contents {
        BvhContents::Leaf { .. } => 0,
        BvhContents::Branch { left, right } => branch_count(*left) + branch_count(*right) + 1,
    }
}

/// Every summary holds a body, and every branch's summary is the union of its
/// children's.
pub open spec fn node_wf(n: BvhNode) -> bool
    decreases n,
{
    &&& data_ok(n.data)
    &&& match n.contents {
        BvhContents::Leaf { .. } => true,
        BvhContents::Branch { left, right } => {
            &&& node_wf(*left)
            &&& node_wf(*right)
            &&& left.data.mass + right.data.mass <= u32::MAX
            &&& n.data == data_union(left.data, right.data)
        },
    }
}

proof fn lemma_leaves_nonempty(n: BvhNode)
    ensures
        leaves(n).len() > 0,
    decreases n,
{
    if let BvhContents::Branch { left, right } = n.contents {
        lemma_leaves_nonempty(*left);
    }
}

/// Two successive unions may be regrouped and reordered.
proof fn lemma_data_union_regroup(a: BvhData, b: BvhData, c: BvhData)
    requires
        moments_bounded(a),
        moments_bounded(b),
        moments_bounded(c),
        a.mass + b.mass + c.mass <= u32::MAX,
    ensures
        data_union(data_union(a, c), b) == data_union(data_union(a, b), c),
        data_union(a, data_union(b, c)) == data_union(data_union(a, b), c),
{
    lemma_union_commutes_and_covers(b.bounds, c.bounds);
    lemma_union_associative(a.bounds, b.bounds, c.bounds);
    lemma_union_associative(a.bounds, c.bounds, b.bounds);
    assert(a.mass * COORD_BOUND + b.mass * COORD_BOUND + c.mass * COORD_BOUND
        <= 0x3_0000_0000_0000) by (nonlinear_arith)
        requires
            a.mass + b.mass + c.mass <= u32::MAX,
    ;
}

/// The node after `leaf` is inserted under `n`: a leaf becomes a branch with
/// the old leaf on the left and the new one on the right; a branch passes the
/// new leaf to its left child when the left box grown by the leaf has the
/// smaller area, else to its right child, and refreshes its summary.
pub open spec fn inserted(n: BvhNode, leaf: BvhNode) -> BvhNode
    decreases n,
{
    match n.contents {
        BvhContents::Leaf { .. } => BvhNode {
            data: data_union(n.data, leaf.data),
            contents: BvhContents::Branch { left: Box::new(n), right: Box::new(leaf) },
        },
        BvhContents::Branch { left, right } => if area_spec(
            union_spec(left.data.bounds, leaf.data.bounds),
        ) < area_spec(union_spec(right.data.bounds, leaf.data.bounds)) {
            let new_left = inserted(*left, leaf);
            BvhNode {
                data: data_union(new_left.data, right.data),
                contents: BvhContents::Branch { left: Box::new(new_left), right },
            }
        } else {
            let new_right = inserted(*right, leaf);
            BvhNode {
                data: data_union(left.data, new_right.data),
                contents: BvhContents::Branch { left, right: Box::new(new_right) },
            }
        },
    }
}

/// The leaf node of a body.
pub open spec fn body_leaf(b: Body) -> BvhNode {
    BvhNode { data: body_data(b), contents: BvhContents::Leaf { entity: b.id } }
}

/// Adds the leaf `leaf` under `node`: a leaf becomes a branch over itself and
/// the new leaf; a branch passes the leaf on to the child whose box would
/// grow to the smaller area (the right one on a tie), then refreshes its
/// summary.
fn insert_leaf(node: BvhNode, leaf: BvhNode) -> (r: BvhNode)
    requires
        node_wf(node),
        node_wf(leaf),
        leaf.contents is Leaf,
        node.data.mass + leaf.data.mass <= u32::MAX,
    ensures
        node_wf(r),
        r == inserted(node, leaf),
        r.data == data_union(node.data, leaf.data),
        exists|i: int|
            0 <= i <= leaves(node).len() && #[trigger] leaves(node).insert(i, leaves(leaf)[0])
                == leaves(r),
        branch_count(r) == branch_count(node) + 1,
    decreases node,
{
    let ghost old_leaves = leaves(node);
    let ghost x = leaves(leaf)[0];
    let BvhNode { data, contents } = node;
    match contents {
        BvhContents::Leaf { entity } => {
            let d = data.union(&leaf.data);
            let old_leaf = BvhNode { data, contents: BvhContents::Leaf { entity } };
            let r = BvhNode {
                data: d,
                contents: BvhContents::Branch { left: Box::new(old_leaf), right: Box::new(leaf) },
            };
            assert(old_leaves.insert(1, x) =~= leaves(r));
            assert(branch_count(r) == branch_count(old_leaf) + branch_count(leaf) + 1);
            r
        },
        BvhContents::Branch { left, right } => {
            let ghost (l0, r0) = (*left, *right);
            let left_cost = left.data.bounds.union(&leaf.data.bounds).area();
            let right_cost = right.data.bounds.union(&leaf.data.bounds).area();
            proof {
                reveal_with_fuel(node_wf, 2);
                lemma_data_union_regroup(l0.data, r0.data, leaf.data);
            }
            if left_cost < right_cost {
                let new_left = insert_leaf(*left, leaf);
                let d = new_left.data.union(&right.data);
                let r = BvhNode {
                    data: d,
                    contents: BvhContents::Branch { left: Box::new(new_left), right },
                };
                let ghost i = choose|i: int|
                    0 <= i <= leaves(l0).len() && #[trigger] leaves(l0).insert(i, x) == leaves(
                        new_left,
                    );
                assert(old_leaves.insert(i, x) =~= leaves(r));
                r
            } else {
                let new_right = insert_leaf(*right, leaf);
                let d = left.data.union(&new_right.data);
                let r = BvhNode {
                    data: d,
                    contents: BvhContents::Branch { left, right: Box::new(new_right) },
                };
                let ghost i = choose|i: int|
                    0 <= i <= leaves(r0).len() && #[trigger] leaves(r0).insert(i, x) == leaves(
                        new_right,
                    );
                assert(old_leaves.insert(leaves(l0).len() + i, x) =~= leaves(r));
                r
            }
        },
    }
}


/// A body entering the simulation: its identity, its position, its mass and
/// the offset of its center of mass from its position.
#[derive(Clone, Copy, Debug, PartialEq, Eq, Structural)]
pub struct Body {
    pub id: u64,
    pub position: Point,
    pub mass: u32,
    pub local_center_of_mass: Point,
}

/// The summary of a single body.
pub open spec fn body_data(b: Body) -> BvhData {
    leaf_data(
        b.position,
        b.mass,
        b.position.x + b.local_center_of_mass.x,
        b.position.y + b.local_center_of_mass.y,
    )
}

/// Each body as its identity and summary, in order.
pub open spec fn bodies_data(s: Seq<Body>) -> Seq<(u64, BvhData)> {
    s.map_values(|b: Body| (b.id, body_data(b)))
}

/// The sum of the masses of the bodies.
pub open spec fn mass_total(s: Seq<Body>) -> int
    decreases s.len(),
{
    if s.len() == 0 {
        0
    } else {
        mass_total(s.drop_last()) + s.last().mass
    }
}

/// The sum of `f` over the summaries of `s`.
pub open spec fn sum_of(s: Seq<(u64, BvhData)>, f: spec_fn(BvhData) -> int) -> int
    decreases s.len(),
{
    if s.len() == 0 {
        0
    } else {
        sum_of(s.drop_last(), f) + f(s.last().1)
    }
}

pub open spec fn mass_fn() -> spec_fn(BvhData) -> int {
    |d: BvhData| d.mass as int
}

pub open spec fn moment_x_fn() -> spec_fn(BvhData) -> int {
    |d: BvhData| d.moment_x as int
}

pub open spec fn moment_y_fn() -> spec_fn(BvhData) -> int {
    |d: BvhData| d.moment_y as int
}

proof fn lemma_moment_sum_fits(a: BvhData, b: BvhData)
    requires
        moments_bounded(a),
        moments_bounded(b),
    ensures
        i128::MIN <= a.moment_x + b.moment_x <= i128::MAX,
        i128::MIN <= a.moment_y + b.moment_y <= i128::MAX,
{
    assert(a.mass * COORD_BOUND <= 0x1_0000_0000_0000) by (nonlinear_arith)
        requires
            a.mass <= u32::MAX,
    ;
    assert(b.mass * COORD_BOUND <= 0x1_0000_0000_0000) by (nonlinear_arith)
        requires
            b.mass <= u32::MAX,
    ;
}

proof fn lemma_sum_append(a: Seq<(u64, BvhData)>, b: Seq<(u64, BvhData)>, f: spec_fn(BvhData) -> int)
    ensures
        sum_of(a + b, f) == sum_of(a, f) + sum_of(b, f),
    decreases b.len(),
{
    if b.len() == 0 {
        assert(a + b =~= a);
    } else {
        assert((a + b).drop_last() =~= a + b.drop_last());
        lemma_sum_append(a, b.drop_last(), f);
    }
}

proof fn lemma_sum_single(x: (u64, BvhData), f: spec_fn(BvhData) -> int)
    ensures
        sum_of(seq![x], f) == f(x.1),
{
    assert(seq![x].drop_last() =~= Seq::<(u64, BvhData)>::empty());
    assert(seq![x].last() == x);
    assert(sum_of(Seq::<(u64, BvhData)>::empty(), f) == 0);
}

proof fn lemma_sum_remove(s: Seq<(u64, BvhData)>, j: int, f: spec_fn(BvhData) -> int)
    requires
        0 <= j < s.len(),
    ensures
        sum_of(s, f) == sum_of(s.remove(j), f) + f(s[j].1),
{
    let pre = s.subrange(0, j);
    let post = s.subrange(j + 1, s.len() as int);
    assert(s =~= pre + (seq![s[j]] + post));
    assert(s.remove(j) =~= pre + post);
    lemma_sum_append(pre, seq![s[j]] + post, f);
    lemma_sum_append(seq![s[j]], post, f);
    lemma_sum_append(pre, post, f);
    lemma_sum_single(s[j], f);
}

/// Sums over the summaries do not depend on the order of the bodies.
proof fn lemma_sum_permutation(s1: Seq<(u64, BvhData)>, s2: Seq<(u64, BvhData)>, f: spec_fn(BvhData) -> int)
    requires
        s1.to_multiset() == s2.to_multiset(),
    ensures
        sum_of(s1, f) == sum_of(s2, f),
    decreases s1.len(),
{
    broadcast use vstd::seq_lib::group_to_multiset_ensures;

    if s1.len() == 0 {
        assert(s2.to_multiset().len() == 0);
    } else {
        let x = s1.last();
        let rest = s1.drop_last();
        assert(rest.push(x) =~= s1);
        assert(s1.to_multiset() == rest.to_multiset().insert(x));
        assert(s2.to_multiset().count(x) > 0);
        assert(s2.contains(x));
        let j = choose|j: int| 0 <= j < s2.len() && s2[j] == x;
        assert(s2.remove(j).to_multiset() == s2.to_multiset().remove(s2[j]));
        assert(rest.to_multiset() =~= s2.remove(j).to_multiset());
        lemma_sum_permutation(rest, s2.remove(j), f);
        lemma_sum_remove(s2, j, f);
    }
}

/// A well-formed node's summary holds the sums of its bodies' masses and
/// moments, and it has one branch fewer than it has bodies.
proof fn lemma_node_sums(n: BvhNode)
    requires
        node_wf(n),
    ensures
        n.data.mass == sum_of(leaves(n), mass_fn()),
        n.data.moment_x == sum_of(leaves(n), moment_x_fn()),
        n.data.moment_y == sum_of(leaves(n), moment_y_fn()),
        branch_count(n) + 1 == leaves(n).len(),
    decreases n,
{
    match n.contents {
        BvhContents::Leaf { entity } => {
            assert(leaves(n) == seq![(entity, n.data)]);
            assert(mass_fn()(n.data) == n.data.mass);
            assert(moment_x_fn()(n.data) == n.data.moment_x);
            assert(moment_y_fn()(n.data) == n.data.moment_y);
            lemma_sum_single((entity, n.data), mass_fn());
            lemma_sum_single((entity, n.data), moment_x_fn());
            lemma_sum_single((entity, n.data), moment_y_fn());
            assert(sum_of(leaves(n), moment_x_fn()) == n.data.moment_x);
            assert(sum_of(leaves(n), moment_y_fn()) == n.data.moment_y);
        },
        BvhContents::Branch { left, right } => {
            lemma_node_sums(*left);
            lemma_node_sums(*right);
            reveal_with_fuel(node_wf, 2);
            lemma_moment_sum_fits(left.data, right.data);
            lemma_sum_append(leaves(*left), leaves(*right), mass_fn());
            lemma_sum_append(leaves(*left), leaves(*right), moment_x_fn());
            lemma_sum_append(leaves(*left), leaves(*right), moment_y_fn());
        },
    }
}

/// A tree of `n` bodies has `n - 1` branches, and its total mass is the sum
/// of its bodies' masses.
pub proof fn lemma_tree_counts(t: &BvhTree)
    requires
        t.wf(),
    ensures
        t.bodies().len() > 0 ==> t.branches() + 1 == t.bodies().len(),
        t.mass() == sum_of(t.bodies(), mass_fn()),
{
    if let Some(n) = t.root {
        lemma_node_sums(n);
    }
}

/// Two trees that hold the same bodies, whatever order they were inserted
/// in and whatever their shapes, have the same total mass and the same
/// moments, hence the same center of mass.
pub proof fn lemma_summary_independent_of_order(t1: &BvhTree, t2: &BvhTree)
    requires
        t1.wf(),
        t2.wf(),
        t1.bodies().to_multiset() == t2.bodies().to_multiset(),
    ensures
        t1.root matches Some(r1) ==> t2.root matches Some(r2) && r1.data.mass == r2.data.mass
            && r1.data.moment_x == r2.data.moment_x && r1.data.moment_y == r2.data.moment_y,
        t1.root is None ==> t2.root is None,
{
    broadcast use vstd::seq_lib::group_to_multiset_ensures;

    vstd::seq_lib::to_multiset_len(t1.bodies());
    vstd::seq_lib::to_multiset_len(t2.bodies());
    assert(t1.bodies().len() == t2.bodies().len());
    lemma_sum_permutation(t1.bodies(), t2.bodies(), mass_fn());
    lemma_sum_permutation(t1.bodies(), t2.bodies(), moment_x_fn());
    lemma_sum_permutation(t1.bodies(), t2.bodies(), moment_y_fn());
    if let Some(r1) = t1.root {
        lemma_node_sums(r1);
        lemma_leaves_nonempty(r1);
    }
    if let Some(r2) = t2.root {
        lemma_node_sums(r2);
        lemma_leaves_nonempty(r2);
    }
}

/// Why a body could not be added.
#[derive(Clone, Copy, Debug, PartialEq, Eq, Structural)]
pub enum BvhError {
    /// The body's mass is not positive.
    InvalidMass,
    /// A body with the same identity is already in the tree.
    DuplicateBody,
}

/// The hierarchy: an optional root, and a table from each body's identity to
/// the summary it was inserted with.
#[derive(Debug)]
pub struct BvhTree {
    pub root: Option<BvhNode>,
    pub entity_table: HashMap<u64, BvhData>,
}

impl BvhTree {
    /// The bodies of the tree from left to right, as identity and summary.
    pub open spec fn bodies(&self) -> Seq<(u64, BvhData)> {
        match self.root {
            None => seq![],
            Some(n) => leaves(n),
        }
    }

    pub open spec fn branches(&self) -> nat {
        match self.root {
            None => 0,
            Some(n) => branch_count(n),
        }
    }

    /// The total mass of the tree's bodies.
    pub open spec fn mass(&self) -> int {
        match self.root {
            None => 0,
            Some(n) => n.data.mass as int,
        }
    }

    pub open spec fn has_body(&self, id: u64) -> bool {
        exists|i: int| 0 <= i < self.bodies().len() && #[trigger] self.bodies()[i].0 == id
    }

    /// The nodes are well formed, each identity appears once, and the table
    /// maps exactly the identities of the bodies to their summaries.
    pub open spec fn wf(&self) -> bool {
        &&& (self.root matches Some(n) ==> node_wf(n))
        &&& forall|i: int, j: int|
            0 <= i < j < self.bodies().len() ==> #[trigger] self.bodies()[i].0
                != #[trigger] self.bodies()[j].0
        &&& forall|id: u64| #[trigger]
            self.entity_table@.contains_key(id) <==> self.has_body(id)
        &&& forall|i: int|
            0 <= i < self.bodies().len() ==> #[trigger] self.entity_table@[self.bodies()[i].0]
                == self.bodies()[i].1
    }

    /// An empty tree.
    pub fn new() -> (r: BvhTree)
        ensures
            r.wf(),
            r.bodies() == Seq::<(u64, BvhData)>::empty(),
            r.branches() == 0,
            r.root is None,
            r.entity_table@ == Map::<u64, BvhData>::empty(),
    {
        BvhTree { root: None, entity_table: HashMap::new() }
    }

    /// The total mass of the tree's bodies.
    pub fn total_mass(&self) -> (r: u32)
        ensures
            r == self.mass(),
    {
        match &self.root {
            None => 0,
            Some(n) => n.data.mass,
        }
    }

    /// Whether a body with this identity is in the tree.
    pub fn contains(&self, id: u64) -> (r: bool)
        requires
            self.wf(),
        ensures
            r == self.has_body(id),
    {
        proof {
            assert(vstd::std_specs::hash::obeys_key_model::<u64>());
        }
        self.entity_table.contains_key(&id)
    }

    /// Adds one body as a new leaf. A body whose mass is zero is refused with
    /// `InvalidMass`, one whose identity is already present with
    /// `DuplicateBody`; the tree is then left as it was.
    pub fn add_body(&mut self, body: Body) -> (r: Result<(), BvhError>)
        requires
            old(self).wf(),
            old(self).mass() + body.mass <= u32::MAX,
        ensures
            final(self).wf(),
            body.mass == 0 ==> r == Err::<(), BvhError>(BvhError::InvalidMass),
            body.mass > 0 && old(self).has_body(body.id) ==> r == Err::<(), BvhError>(
                BvhError::DuplicateBody,
            ),
            body.mass > 0 && !old(self).has_body(body.id) ==> r is Ok,
            r is Err ==> final(self).root == old(self).root && final(self).entity_table@ == old(
                self,
            ).entity_table@,
            r is Ok ==> final(self).root == Some(
                match old(self).root {
                    None => body_leaf(body),
                    Some(n) => inserted(n, body_leaf(body)),
                },
            ),
            r is Err ==> final(self).bodies() == old(self).bodies() && final(self).branches()
                == old(self).branches(),
            r is Ok ==> {
                &&& exists|i: int|
                    0 <= i <= old(self).bodies().len() && #[trigger] old(self).bodies().insert(
                        i,
                        (body.id, body_data(body)),
                    ) == final(self).bodies()
                &&& final(self).branches() == if old(self).bodies().len() == 0 {
                    0
                } else {
                    old(self).branches() + 1
                }
                &&& final(self).mass() == old(self).mass() + body.mass
            },
    {
        if body.mass == 0 {
            return Err(BvhError::InvalidMass);
        }
        if self.contains(body.id) {
            return Err(BvhError::DuplicateBody);
        }
        let ghost old_bodies = self.bodies();
        let ghost x = (body.id, body_data(body));
        let data = BvhData::for_body(body.position, body.mass, body.local_center_of_mass);
        let leaf = BvhNode { data, contents: BvhContents::Leaf { entity: body.id } };
        let root = self.root.take();
        match root {
            None => {
                self.root = Some(leaf);
                assert(old_bodies.insert(0, x) =~= self.bodies());
                assert(branch_count(leaf) == 0);
            },
            Some(n) => {
                proof {
                    lemma_leaves_nonempty(n);
                }
                let r = insert_leaf(n, leaf);
                self.root = Some(r);
            },
        }
        proof {
            assert(vstd::std_specs::hash::obeys_key_model::<u64>());
        }
        self.entity_table.insert(body.id, data);
        proof {
            let i = choose|i: int|
                0 <= i <= old_bodies.len() && #[trigger] old_bodies.insert(i, x)
                    == self.bodies();
            let nb = self.bodies();
            assert(forall|k: int|
                0 <= k < nb.len() ==> #[trigger] nb[k] == if k < i {
                    old_bodies[k]
                } else if k == i {
                    x
                } else {
                    old_bodies[k - 1]
                });
            assert forall|id: u64| #[trigger]
                self.entity_table@.contains_key(id) <==> self.has_body(id) by {
                if self.entity_table@.contains_key(id) && id != body.id {
                    let k = choose|k: int| 0 <= k < old_bodies.len() && #[trigger] old_bodies[k].0 == id;
                    if k < i {
                        assert(nb[k].0 == id);
                    } else {
                        assert(nb[k + 1].0 == id);
                    }
                }
                if id == body.id {
                    assert(nb[i].0 == id);
                }
                if self.has_body(id) && id != body.id {
                    let k = choose|k: int| 0 <= k < nb.len() && #[trigger] nb[k].0 == id;
                    if k < i {
                        assert(old_bodies[k].0 == id);
                    } else {
                        assert(old_bodies[k - 1].0 == id);
                    }
                }
            }
            assert forall|a: int, b: int| 0 <= a < b < nb.len() implies #[trigger] nb[a].0
                != #[trigger] nb[b].0 by {
                if a == i {
                    assert(old_bodies[b - 1].0 != body.id);
                } else if b == i {
                    assert(old_bodies[a].0 != body.id);
                }
            }
            assert forall|k: int| 0 <= k < nb.len() implies #[trigger] self.entity_table@[nb[k].0]
                == nb[k].1 by {
                if k < i {
                    assert(old_bodies[k].0 != body.id);
                } else if k > i {
                    assert(old_bodies[k - 1].0 != body.id);
                }
            }
        }
        Ok(())
    }
}

proof fn lemma_mass_prefix(s: Seq<Body>, k: int)
    requires
        0 <= k <= s.len(),
    ensures
        mass_total(s.take(k)) <= mass_total(s),
    decreases s.len(),
{
    if k == s.len() {
        assert(s.take(k) =~= s);
    } else {
        assert(s.drop_last().take(k) =~= s.take(k));
        lemma_mass_prefix(s.drop_last(), k);
    }
}

proof fn lemma_same_ids(s1: Seq<(u64, BvhData)>, s2: Seq<(u64, BvhData)>, id: u64)
    requires
        s1.to_multiset() == s2.to_multiset(),
    ensures
        (exists|i: int| 0 <= i < s1.len() && #[trigger] s1[i].0 == id) <==> (exists|i: int|
            0 <= i < s2.len() && #[trigger] s2[i].0 == id),
{
    broadcast use vstd::seq_lib::group_to_multiset_ensures;

    if exists|i: int| 0 <= i < s1.len() && #[trigger] s1[i].0 == id {
        let i = choose|i: int| 0 <= i < s1.len() && #[trigger] s1[i].0 == id;
        assert(s1.contains(s1[i]));
        assert(s2.to_multiset().count(s1[i]) > 0);
        let k = choose|k: int| 0 <= k < s2.len() && s2[k] == s1[i];
        assert(s2[k].0 == id);
    }
    if exists|i: int| 0 <= i < s2.len() && #[trigger] s2[i].0 == id {
        let i = choose|i: int| 0 <= i < s2.len() && #[trigger] s2[i].0 == id;
        assert(s2.contains(s2[i]));
        assert(s1.to_multiset().count(s2[i]) > 0);
        let k = choose|k: int| 0 <= k < s1.len() && s1[k] == s2[i];
        assert(s1[k].0 == id);
    }
}

impl BvhTree {
    /// Builds a tree holding `bodies`, inserted one at a time in order.
    /// Fails with `InvalidMass` when a body's mass is zero, else with
    /// `DuplicateBody` when two bodies share an identity.
    pub fn build(bodies: &Vec<Body>) -> (r: Result<BvhTree, BvhError>)
        requires
            mass_total(bodies@) <= u32::MAX,
        ensures
            r matches Err(BvhError::InvalidMass) <==> exists|i: int|
                0 <= i < bodies@.len() && #[trigger] bodies@[i].mass == 0,
            r matches Err(BvhError::DuplicateBody) <==> (forall|i: int|
                0 <= i < bodies@.len() ==> #[trigger] bodies@[i].mass > 0) && exists|i: int, j: int|
                0 <= i < j < bodies@.len() && #[trigger] bodies@[i].id == #[trigger] bodies@[j].id,
            r matches Ok(t) ==> {
                &&& t.wf()
                &&& t.bodies().to_multiset() == bodies_data(bodies@).to_multiset()
                &&& t.bodies().len() == bodies@.len()
                &&& bodies@.len() > 0 ==> t.branches() + 1 == bodies@.len()
                &&& t.mass() == mass_total(bodies@)
            },
    {
        let n = bodies.len();
        let mut i: usize = 0;
        while i < n
            invariant
                n == bodies@.len(),
                0 <= i <= n,
                forall|k: int| 0 <= k < i ==> #[trigger] bodies@[k].mass > 0,
            decreases n - i,
        {
            if bodies[i].mass == 0 {
                return Err(BvhError::InvalidMass);
            }
            i += 1;
        }
        let mut tree = BvhTree::new();
        let mut j: usize = 0;
        proof {
            assert(bodies_data(bodies@.take(0)) =~= Seq::<(u64, BvhData)>::empty());
            assert(bodies@.take(0) =~= Seq::<Body>::empty());
        }
        while j < n
            invariant
                n == bodies@.len(),
                0 <= j <= n,
                forall|k: int| 0 <= k < n ==> #[trigger] bodies@[k].mass > 0,
                mass_total(bodies@) <= u32::MAX,
                tree.wf(),
                tree.bodies().to_multiset() == bodies_data(bodies@.take(j as int)).to_multiset(),
                tree.bodies().len() == j,
                j > 0 ==> tree.branches() + 1 == j,
                j == 0 ==> tree.branches() == 0,
                tree.mass() == mass_total(bodies@.take(j as int)),
                forall|a: int, b: int|
                    0 <= a < b < j ==> #[trigger] bodies@[a].id != #[trigger] bodies@[b].id,
            decreases n - j,
        {
            let b = bodies[j];
            let ghost prefix = bodies@.take(j as int);
            let ghost old_bodies = tree.bodies();
            let ghost x = (b.id, body_data(b));
            proof {
                lemma_mass_prefix(bodies@, j + 1);
                assert(bodies@.take(j + 1).drop_last() =~= prefix);
                assert(bodies_data(bodies@.take(j + 1)) =~= bodies_data(prefix).push(x));
                lemma_same_ids(old_bodies, bodies_data(prefix), b.id);
                assert(forall|k: int| 0 <= k < j ==> #[trigger] bodies_data(prefix)[k].0 == bodies@[k].id);
            }
            match tree.add_body(b) {
                Err(e) => {
                    proof {
                        let k = choose|k: int| 0 <= k < bodies_data(prefix).len() && #[trigger] bodies_data(prefix)[k].0 == b.id;
                        assert(bodies@[k].id == bodies@[j as int].id);
                    }
                    return Err(e);
                },
                Ok(()) => {},
            }
            proof {
                broadcast use vstd::seq_lib::group_to_multiset_ensures;

                let k = choose|k: int|
                    0 <= k <= old_bodies.len() && #[trigger] old_bodies.insert(k, x)
                        == tree.bodies();
                vstd::seq_lib::to_multiset_insert(old_bodies, k, x);
                assert forall|a: int, c: int| 0 <= a < c < j + 1 implies #[trigger] bodies@[a].id
                    != #[trigger] bodies@[c].id by {
                    if c == j {
                        assert(bodies_data(prefix)[a].0 == bodies@[a].id);
                    }
                }
            }
            j += 1;
        }
        proof {
            assert(bodies@.take(n as int) =~= bodies@);
        }
        Ok(tree)
    }
}

} // verus!
