//! The description-length objective, as far as whole numbers carry it: the
//! room for edges in each block pair, which block counts as the core, whether
//! the densities are in the order that a core-periphery split asks for, and
//! which logarithms are guarded. The score itself is a sum of logarithms of
//! the ratios laid out here.

use crate::adjacency::GRAPH_LIMIT;
use vstd::prelude::*;

verus! {

/// What replaces a logarithm whose argument is not strictly between 0 and 1,
/// and what a split whose densities are out of order costs on top.
pub const PENALTY_VALUE: u32 = 1000;

/// The number of node pairs inside a block of `k` nodes.
pub open spec fn room_within(k: int) -> int {
    if k > 1 {
        k * (k - 1) / 2
    } else {
        0
    }
}

/// The number of node pairs with one node in each of two blocks.
pub open spec fn room_across(n0: int, n1: int) -> int {
    n0 * n1
}

/// The edges seen between the nodes of a block pair and the edges there is
/// room for. The density of the pair is `observed / possible`, and 0 where
/// there is no room.
pub struct Ratio {
    pub observed: int,
    pub possible: int,
}

impl Ratio {
    pub open spec fn top(self) -> int {
        if self.possible > 0 {
            self.observed
        } else {
            0
        }
    }

    pub open spec fn bottom(self) -> int {
        if self.possible > 0 {
            self.possible
        } else {
            1
        }
    }

    /// The density of `self` is strictly below that of `other`.
    pub open spec fn below(self, other: Ratio) -> bool {
        self.top() * other.bottom() < other.top() * self.bottom()
    }

    /// The density lies strictly between 0 and 1, so that its logarithm and
    /// that of its complement are taken as they are.
    pub open spec fn interior(self) -> bool {
        0 < self.observed < self.possible
    }
}

/// The layout of the score of one split.
pub struct OutlineModel {
    /// The block pair of the denser block, block 0 where both are as dense.
    pub core: Ratio,
    /// The block pair of the two blocks with each other.
    pub cross: Ratio,
    /// The block pair of the other block.
    pub periphery: Ratio,
    /// The densities are not in the order core > cross > periphery.
    pub penalised: bool,
    pub n0: int,
    pub n1: int,
    pub n: int,
}

/// The layout of the score of a split with `n0 > 0` and `n1 > 0` nodes in
/// its blocks.
pub open spec fn outline(m00: int, m11: int, m01: int, n0: int, n1: int, n: int) -> OutlineModel {
    let block0 = Ratio { observed: m00, possible: room_within(n0) };
    let block1 = Ratio { observed: m11, possible: room_within(n1) };
    let cross = Ratio { observed: m01, possible: room_across(n0, n1) };
    let core = if block0.below(block1) {
        block1
    } else {
        block0
    };
    let periphery = if block0.below(block1) {
        block0
    } else {
        block1
    };
    OutlineModel {
        core,
        cross,
        periphery,
        penalised: !(cross.below(core) && periphery.below(cross)),
        n0,
        n1,
        n,
    }
}

impl OutlineModel {
    /// A score of the shape that the objective has, with costs in whole
    /// numbers: a cost for each block pair, a cost for the size of each
    /// block, a cost for the number of nodes and the penalty where it is due.
    pub open spec fn total(
        self,
        pair_cost: spec_fn(Ratio) -> int,
        size_cost: spec_fn(int) -> int,
        order_cost: spec_fn(int) -> int,
    ) -> int {
        pair_cost(self.core) + pair_cost(self.cross) + pair_cost(self.periphery) + size_cost(
            self.n0,
        ) + size_cost(self.n1) + order_cost(self.n) + if self.penalised {
            PENALTY_VALUE as int
        } else {
            0
        }
    }
}

/// Which block is called 0 and which 1 does not matter to the score:
/// exchanging the two blocks, with their inner edge counts and their sizes,
/// leaves every score of the objective's shape as it was, whatever the cost
/// of a block pair, of a block size and of the number of nodes is taken to
/// be.
pub proof fn lemma_label_swap(
    m00: int,
    m11: int,
    m01: int,
    n0: int,
    n1: int,
    n: int,
    pair_cost: spec_fn(Ratio) -> int,
    size_cost: spec_fn(int) -> int,
    order_cost: spec_fn(int) -> int,
)
    ensures
        outline(m00, m11, m01, n0, n1, n).total(pair_cost, size_cost, order_cost) == outline(
            m11,
            m00,
            m01,
            n1,
            n0,
            n,
        ).total(pair_cost, size_cost, order_cost),
{
    let a = outline(m00, m11, m01, n0, n1, n);
    let b = outline(m11, m00, m01, n1, n0, n);
    let block0 = Ratio { observed: m00, possible: room_within(n0) };
    let block1 = Ratio { observed: m11, possible: room_within(n1) };
    assert(room_across(n0, n1) == room_across(n1, n0)) by (nonlinear_arith);
    assert(a.cross == b.cross);
    if block0.below(block1) {
        assert(!block1.below(block0));
        assert(a.core == b.core && a.periphery == b.periphery);
    } else if block1.below(block0) {
        assert(a.core == b.core && a.periphery == b.periphery);
    } else {
        assert(a.core == b.periphery && a.periphery == b.core);
        if a.cross.below(a.core) && a.periphery.below(a.cross) {
            lemma_below_chain(a.periphery, a.cross, a.core);
        }
        if b.cross.below(b.core) && b.periphery.below(b.cross) {
            lemma_below_chain(b.periphery, b.cross, b.core);
        }
        assert(a.penalised && b.penalised);
    }
}

/// Densities are ordered: below is transitive.
proof fn lemma_below_chain(a: Ratio, b: Ratio, c: Ratio)
    requires
        a.below(b),
        b.below(c),
    ensures
        a.below(c),
{
    let (x, p) = (a.top(), a.bottom());
    let (y, q) = (b.top(), b.bottom());
    let (z, r) = (c.top(), c.bottom());
    assert(x * r < z * p) by (nonlinear_arith)
        requires
            x * q < y * p,
            y * r < z * q,
            p > 0,
            q > 0,
            r > 0,
    ;
}

/// A block pair as the search holds it.
#[derive(Debug, Clone, Copy, PartialEq, Eq)]
pub struct BlockPair {
    pub observed: i64,
    pub possible: i64,
}

impl View for BlockPair {
    type V = Ratio;

    open spec fn view(&self) -> Ratio {
        Ratio { observed: self.observed as int, possible: self.possible as int }
    }
}

impl BlockPair {
    /// Whether the density of `self` is strictly below that of `other`,
    /// decided exactly.
    pub fn below(&self, other: &BlockPair) -> (b: bool)
        ensures
            b == self@.below(other@),
    {
        let (x, p): (i64, i64) = if self.possible > 0 {
            (self.observed, self.possible)
        } else {
            (0, 1)
        };
        let (y, q): (i64, i64) = if other.possible > 0 {
            (other.observed, other.possible)
        } else {
            (0, 1)
        };
        proof {
            lemma_product_fits(x as int, q as int);
            lemma_product_fits(y as int, p as int);
        }
        (x as i128) * (q as i128) < (y as i128) * (p as i128)
    }

    /// Whether the density lies strictly between 0 and 1.
    pub fn interior(&self) -> (b: bool)
        ensures
            b == self@.interior(),
    {
        0 < self.observed && self.observed < self.possible
    }
}

/// The layout of a score as the search holds it.
#[derive(Debug, Clone, Copy, PartialEq, Eq)]
pub struct Outline {
    pub core: BlockPair,
    pub cross: BlockPair,
    pub periphery: BlockPair,
    pub penalised: bool,
    pub n0: usize,
    pub n1: usize,
    pub n: usize,
}

impl View for Outline {
    type V = OutlineModel;

    open spec fn view(&self) -> OutlineModel {
        OutlineModel {
            core: self.core@,
            cross: self.cross@,
            periphery: self.periphery@,
            penalised: self.penalised,
            n0: self.n0 as int,
            n1: self.n1 as int,
            n: self.n as int,
        }
    }
}

proof fn lemma_product_fits(x: int, q: int)
    requires
        -0x8000_0000_0000_0000 <= x <= 0x7fff_ffff_ffff_ffff,
        0 < q <= 0x7fff_ffff_ffff_ffff,
    ensures
        -0x4000_0000_0000_0000_0000_0000_0000_0000 <= x * q
            <= 0x4000_0000_0000_0000_0000_0000_0000_0000,
{
    assert(x * q <= 0x7fff_ffff_ffff_ffff * q) by (nonlinear_arith)
        requires
            x <= 0x7fff_ffff_ffff_ffff,
            q > 0,
    ;
    assert(x * q >= -0x8000_0000_0000_0000 * q) by (nonlinear_arith)
        requires
            x >= -0x8000_0000_0000_0000,
            q > 0,
    ;
}

/// The number of node pairs inside a block of `k` nodes.
pub fn pairs_within(k: usize) -> (room: i64)
    requires
        k <= GRAPH_LIMIT,
    ensures
        room == room_within(k as int),
        0 <= room,
{
    if k > 1 {
        let wide: u64 = k as u64;
        assert(wide * (wide - 1) <= 0xffff_ffff * 0xffff_fffe) by (nonlinear_arith)
            requires
                1 < wide <= 0xffff_ffff,
        ;
        let room: u64 = wide * (wide - 1) / 2;
        room as i64
    } else {
        0
    }
}

/// The number of node pairs with one node in each of two blocks that share
/// at most `GRAPH_LIMIT` nodes.
pub fn pairs_across(n0: usize, n1: usize) -> (room: i64)
    requires
        n0 + n1 <= GRAPH_LIMIT,
    ensures
        room == room_across(n0 as int, n1 as int),
        0 <= room,
{
    let a: u64 = n0 as u64;
    let b: u64 = n1 as u64;
    assert(0 <= a * b <= 0xffff_ffff * 0xffff_ffff) by (nonlinear_arith)
        requires
            0 <= a <= 0xffff_ffff,
            0 <= b <= 0xffff_ffff,
            a + b <= 0xffff_ffff,
    ;
    assert(a * b <= 0x7fff_ffff_ffff_ffff) by (nonlinear_arith)
        requires
            0 <= a,
            0 <= b,
            a + b <= 0xffff_ffff,
    {
        assert((a - b) * (a - b) >= 0);
        assert(4 * (a * b) == (a + b) * (a + b) - (a - b) * (a - b));
        assert((a + b) * (a + b) <= 0xffff_ffff * 0xffff_ffff);
    }
    let room: u64 = a * b;
    room as i64
}

/// Lays out the score of a split from its edge counts and block sizes. A
/// split with an empty block has no layout: its score is infinite, whatever
/// the edge counts.
pub fn outline_from_counts(m00: i64, m11: i64, m01: i64, n0: usize, n1: usize, n: usize) -> (o:
    Option<Outline>)
    requires
        n0 + n1 == n,
        n <= GRAPH_LIMIT,
    ensures
        o is None <==> n0 == 0 || n1 == 0,
        o matches Some(layout) ==> layout@ == outline(
            m00 as int,
            m11 as int,
            m01 as int,
            n0 as int,
            n1 as int,
            n as int,
        ),
{
    if n0 == 0 || n1 == 0 {
        return None;
    }
    let block0 = BlockPair { observed: m00, possible: pairs_within(n0) };
    let block1 = BlockPair { observed: m11, possible: pairs_within(n1) };
    let cross = BlockPair { observed: m01, possible: pairs_across(n0, n1) };
    let (core, periphery) = if block0.below(&block1) {
        (block1, block0)
    } else {
        (block0, block1)
    };
    let ordered = cross.below(&core) && periphery.below(&cross);
    Some(Outline { core, cross, periphery, penalised: !ordered, n0, n1, n })
}

} // verus!
