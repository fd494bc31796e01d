use vstd::prelude::*;
use crate::aabb::{Point, max_i, width, height};
use crate::data::{BvhData, data_ok};
use crate::bvh::{BvhContents, BvhNode, BvhTree, leaves, node_wf};

verus! {

/// Parameters of the gravity approximation.
///
/// The accuracy threshold theta is the fraction `theta_num / theta_den`: a
/// subtree is taken as one point mass when its extent divided by its distance
/// is below theta. A zero `theta_num` makes every traversal descend to the
/// leaves; a zero `theta_den` (with a positive `theta_num`) stands for an
/// unbounded theta.
#[derive(Clone, Copy, Debug, PartialEq, Eq, Structural)]
pub struct BvhConfig {
    /// The gravitational constant that scales the force law.
    pub g: u64,
    pub theta_num: u8,
    pub theta_den: u8,
    /// Reserved for a binning insertion strategy; the greedy insertion does
    /// not read it.
    pub bin_count: usize,
}

impl Default for BvhConfig {
    /// `g = 1`, `theta = 1/2`, eight bins.
    fn default() -> (r: BvhConfig)
        ensures
            r.g == 1,
            r.theta_num == 1,
            r.theta_den == 2,
            r.bin_count == 8,
    {
        BvhConfig { g: 1, theta_num: 1, theta_den: 2, bin_count: 8 }
    }
}

/// Squared distance from `p` to the center of mass of `d`, scaled by the
/// square of its mass: `|moment - mass * p|^2`, exact on every input.
pub open spec fn scaled_dist2(d: BvhData, p: Point) -> int {
    let dx = d.moment_x - p.x * d.mass;
    let dy = d.moment_y - p.y * d.mass;
    dx * dx + dy * dy
}

/// The larger side of the summary's box.
pub open spec fn extent(d: BvhData) -> int {
    max_i(width(d.bounds), height(d.bounds))
}

/// `extent / distance < num / den`, with the distance taken to the exact
/// center of mass `moment / mass`: cross-multiplied by `den * mass` and
/// squared. False at distance zero.
pub open spec fn far_enough(d: BvhData, p: Point, num: int, den: int) -> bool {
    extent(d) * extent(d) * (den * den) * (d.mass * d.mass) < (num * num) * scaled_dist2(d, p)
}

/// The point masses that act on the body `q` at `p` under `n`: a leaf of
/// another body not at `p` acts as itself; the body's own leaf, or a leaf at
/// `p`, contributes nothing; a branch that is far enough acts as its summary,
/// and otherwise its children are visited left, then right.
pub open spec fn sources(n: BvhNode, q: u64, p: Point, num: int, den: int) -> Seq<BvhData>
    decreases n,
{
    match n.contents {
        BvhContents::Leaf { entity } => if entity == q || scaled_dist2(n.data, p) == 0 {
            seq![]
        } else {
            seq![n.data]
        },
        BvhContents::Branch { left, right } => if far_enough(n.data, p, num, den) {
            seq![n.data]
        } else {
            sources(*left, q, p, num, den) + sources(*right, q, p, num, den)
        },
    }
}

/// The bodies that act on `q` at `p` one by one in an exact pairwise sum.
pub open spec fn is_other_body(q: u64, p: Point) -> spec_fn((u64, BvhData)) -> bool {
    |b: (u64, BvhData)| b.0 != q && scaled_dist2(b.1, p) != 0
}

pub open spec fn summary_of() -> spec_fn((u64, BvhData)) -> BvhData {
    |b: (u64, BvhData)| b.1
}

/// The scaled squared distance from `p` to the center of mass of `d`.
fn scaled_distance_squared(d: &BvhData, p: Point) -> (r: u128)
    requires
        data_ok(*d),
    ensures
        r == scaled_dist2(*d, p),
        r <= 0x8_0000_0000_0000_0000_0000_0000,
{
    let m = d.mass as i128;
    assert(-0x8000 * m <= p.x * m <= 0x8000 * m && -0x8000 * m <= p.y * m <= 0x8000 * m)
        by (nonlinear_arith)
        requires
            m >= 0,
            -0x8000 <= p.x <= 0x7fff,
            -0x8000 <= p.y <= 0x7fff,
    ;
    assert(m * 0x1_8000 <= 0x2_0000_0000_0000) by (nonlinear_arith)
        requires
            0 <= m <= 0xffff_ffff,
    ;
    let dx = d.moment_x - p.x as i128 * m;
    let dy = d.moment_y - p.y as i128 * m;
    assert(dx * dx <= 0x4_0000_0000_0000_0000_0000_0000 && dy * dy
        <= 0x4_0000_0000_0000_0000_0000_0000) by (nonlinear_arith)
        requires
            -0x2_0000_0000_0000 <= dx <= 0x2_0000_0000_0000,
            -0x2_0000_0000_0000 <= dy <= 0x2_0000_0000_0000,
    ;
    assert(dx * dx >= 0 && dy * dy >= 0) by (nonlinear_arith);
    (dx * dx + dy * dy) as u128
}

/// Whether the summary may stand for its subtree as seen from `p`.
fn is_far_enough(d: &BvhData, p: Point, num: u8, den: u8) -> (r: bool)
    requires
        data_ok(*d),
    ensures
        r == far_enough(*d, p, num as int, den as int),
{
    let s = d.bounds.max_side() as u128;
    let d2 = scaled_distance_squared(d, p);
    let m = d.mass as u128;
    assert(num * num <= 0x1_0000 && den * den <= 0x1_0000 && s * s <= 0x1_0000_0000 && m * m
        <= 0x1_0000_0000_0000_0000) by (nonlinear_arith)
        requires
            num <= 0xff,
            den <= 0xff,
            s <= 0xffff,
            m <= 0xffff_ffff,
    ;
    let n2 = num as u128 * num as u128;
    let k2 = den as u128 * den as u128;
    let s2 = s * s;
    let m2 = m * m;
    assert(s2 * k2 <= 0x1_0000_0000_0000) by (nonlinear_arith)
        requires
            s2 <= 0x1_0000_0000,
            k2 <= 0x1_0000,
    ;
    assert(s2 * k2 * m2 <= 0x1_0000_0000_0000_0000_0000_0000_0000) by (nonlinear_arith)
        requires
            s2 * k2 <= 0x1_0000_0000_0000,
            m2 <= 0x1_0000_0000_0000_0000,
    ;
    assert(n2 * d2 <= 0x8_0000_0000_0000_0000_0000_0000_0000) by (nonlinear_arith)
        requires
            d2 <= 0x8_0000_0000_0000_0000_0000_0000,
            n2 <= 0x1_0000,
    ;
    s2 * k2 * m2 < n2 * d2
}

/// Appends to `out` the point masses under `n` that act on `q` at `p`.
fn collect_sources(n: &BvhNode, q: u64, p: Point, num: u8, den: u8, out: &mut Vec<BvhData>)
    requires
        node_wf(*n),
    ensures
        final(out)@ == old(out)@ + sources(*n, q, p, num as int, den as int),
    decreases n,
{
    match &n.contents {
        BvhContents::Leaf { entity } => {
            if *entity != q && scaled_distance_squared(&n.data, p) != 0 {
                out.push(n.data);
            } else {
                assert(old(out)@ + seq![] =~= old(out)@);
            }
        },
        BvhContents::Branch { left, right } => {
            if is_far_enough(&n.data, p, num, den) {
                out.push(n.data);
            } else {
                let ghost before = out@;
                collect_sources(left, q, p, num, den, out);
                collect_sources(right, q, p, num, den, out);
                assert(out@ =~= before + sources(*n, q, p, num as int, den as int));
            }
        },
    }
}

impl BvhTree {
    /// The point masses acting on the tree's body `query` at `position`.
    pub open spec fn sources_for(&self, query: u64, position: Point, num: int, den: int) -> Seq<
        BvhData,
    > {
        match self.root {
            None => seq![],
            Some(n) => sources(n, query, position, num, den),
        }
    }

    /// The point masses whose attraction, summed, approximates the net force
    /// on the body `query` at `position`: each is a summary of one or more
    /// bodies, found by walking down from the root under the accuracy
    /// threshold of `config`.
    pub fn interaction_list(&self, query: u64, position: Point, config: &BvhConfig) -> (r: Vec<
        BvhData,
    >)
        requires
            self.wf(),
        ensures
            r@ == self.sources_for(
                query,
                position,
                config.theta_num as int,
                config.theta_den as int,
            ),
    {
        let mut out: Vec<BvhData> = Vec::new();
        match &self.root {
            None => {},
            Some(n) => {
                collect_sources(n, query, position, config.theta_num, config.theta_den, &mut out);
                assert(out@ =~= self.sources_for(
                    query,
                    position,
                    config.theta_num as int,
                    config.theta_den as int,
                ));
            },
        }
        out
    }
}

proof fn lemma_exact_sources(n: BvhNode, q: u64, p: Point, den: int)
    ensures
        sources(n, q, p, 0, den) == leaves(n).filter(is_other_body(q, p)).map_values(summary_of()),
    decreases n,
{
    match n.contents {
        BvhContents::Leaf { entity } => {
            let x = (entity, n.data);
            assert(seq![x] =~= Seq::<(u64, BvhData)>::empty().push(x));
            reveal_with_fuel(Seq::filter, 2);
            assert(Seq::<(u64, BvhData)>::empty().filter(is_other_body(q, p)) =~= seq![]);
            if is_other_body(q, p)(x) {
                assert(leaves(n).filter(is_other_body(q, p)) =~= seq![x]);
            } else {
                assert(leaves(n).filter(is_other_body(q, p)) =~= seq![]);
            }
            assert(sources(n, q, p, 0, den) =~= leaves(n).filter(is_other_body(q, p)).map_values(
                summary_of(),
            ));
        },
        BvhContents::Branch { left, right } => {
            let e = extent(n.data);
            assert(e * e * (den * den) >= 0) by (nonlinear_arith);
            assert((0int * 0int) * scaled_dist2(n.data, p) == 0);
            assert(!far_enough(n.data, p, 0, den));
            lemma_exact_sources(*left, q, p, den);
            lemma_exact_sources(*right, q, p, den);
            Seq::filter_distributes_over_add(leaves(*left), leaves(*right), is_other_body(q, p));
            let fl = leaves(*left).filter(is_other_body(q, p));
            let fr = leaves(*right).filter(is_other_body(q, p));
            assert((fl + fr).map_values(summary_of()) =~= fl.map_values(summary_of())
                + fr.map_values(summary_of()));
        },
    }
}

/// With a zero theta, the point masses acting on a body are exactly the
/// other bodies of the tree, each on its own, in the tree's order: the
/// approximation is the exact pairwise sum.
pub proof fn lemma_zero_theta_is_pairwise(t: &BvhTree, query: u64, position: Point, den: int)
    ensures
        t.sources_for(query, position, 0, den) == t.bodies().filter(
            is_other_body(query, position),
        ).map_values(summary_of()),
{
    if let Some(n) = t.root {
        lemma_exact_sources(n, query, position, den);
    } else {
        reveal(Seq::filter);
        assert(t.bodies().filter(is_other_body(query, position)).map_values(summary_of())
            =~= seq![]);
    }
}

/// Once theta exceeds the ratio of the tree's extent to the body's distance
/// from its center of mass, the whole tree acts as the single point mass of
/// its root summary (unless the tree is nothing but the body itself).
pub proof fn lemma_large_theta_uses_root(
    t: &BvhTree,
    query: u64,
    position: Point,
    num: int,
    den: int,
)
    requires
        t.root matches Some(n) && far_enough(n.data, position, num, den) && !(n.contents matches BvhContents::Leaf { entity } && entity == query),
    ensures
        t.sources_for(query, position, num, den) == seq![t.root->0.data],
{
    let n = t.root->0;
    if scaled_dist2(n.data, position) == 0 {
        let e = extent(n.data);
        let m = n.data.mass as int;
        assert(e * e * (den * den) * (m * m) >= 0) by (nonlinear_arith);
        assert((num * num) * 0 == 0);
    }
}

} // verus!
