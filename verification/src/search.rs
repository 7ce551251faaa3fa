//! Best-first search over a lowered chunk graph: prefixes are expanded in
//! order of average score per row, falseness is tracked per prefix as a bitset
//! over the chunks, and completed compositions are emitted.

use vstd::prelude::*;
use crate::graph::Graph;

verus! {

/// The bits held by a bitset of the `bit_vec` crate.
pub uninterp spec fn bitvec_bits(v: bit_vec::BitVec) -> Seq<bool>;

#[verifier::external_type_specification]
#[verifier::external_body]
#[verifier::reject_recursive_types(B)]
pub struct ExBitVec<B>(bit_vec::BitVec<B>);

/// Relies on bit_vec::BitVec::from_elem: a bitset of `nbits` copies of `bit`.
#[verifier::external_body]
fn bv_from_elem(nbits: usize, bit: bool) -> (r: bit_vec::BitVec)
    ensures
        bitvec_bits(r).len() == nbits,
        forall|i: int| 0 <= i < nbits ==> bitvec_bits(r)[i] == bit,
{
    bit_vec::BitVec::from_elem(nbits, bit)
}

/// Relies on bit_vec::BitVec::get: `Some` with the stored bit exactly when the
/// index is in range.
#[verifier::external_body]
fn bv_get(v: &bit_vec::BitVec, i: usize) -> (r: bool)
    requires
        i < bitvec_bits(*v).len(),
    ensures
        r == bitvec_bits(*v)[i as int],
{
    v.get(i).unwrap()
}

/// Relies on bit_vec::BitVec::set: writes one bit in place.
#[verifier::external_body]
fn bv_set(v: &mut bit_vec::BitVec, i: usize, x: bool)
    requires
        i < bitvec_bits(*old(v)).len(),
    ensures
        bitvec_bits(*final(v)) == bitvec_bits(*old(v)).update(i as int, x),
{
    v.set(i, x)
}

/// Relies on bit_vec::BitVec::or: the in-place union of two bitsets of one
/// length.
#[verifier::external_body]
fn bv_or(v: &mut bit_vec::BitVec, other: &bit_vec::BitVec)
    requires
        bitvec_bits(*old(v)).len() == bitvec_bits(*other).len(),
    ensures
        bitvec_bits(*final(v)) == Seq::new(
            bitvec_bits(*old(v)).len(),
            |i: int| bitvec_bits(*old(v))[i] || bitvec_bits(*other)[i],
        ),
{
    let _ = v.or(other);
}

/// Relies on bit_vec::BitVec's Clone: the copy holds the same bits.
#[verifier::external_body]
fn bv_clone(v: &bit_vec::BitVec) -> (r: bit_vec::BitVec)
    ensures
        bitvec_bits(r) == bitvec_bits(*v),
{
    v.clone()
}

/// A node of the lowered search graph.
pub struct SearchNode {
    pub succs: Vec<(usize, usize, usize)>,
    pub falseness: bit_vec::BitVec,
    pub score: i64,
    pub length: usize,
    pub is_end: bool,
}

/// An immutable graph lowered to dense indices for the search's hot loop.
pub struct SearchGraph {
    pub nodes: Vec<SearchNode>,
    pub starts: Vec<(usize, usize)>,
    pub num_parts: usize,
}

/// A lowered successor entry comes from one of the chunk's own links: same
/// link index and rotation, and a target chunk keyed like the link's id.
pub open spec fn succ_mirrors_link(g: &Graph, i: int, e: (usize, usize, usize)) -> bool {
    exists|si: int|
        0 <= si < g.chunks@[i].1.successors@.len() && e.0 == (
        #[trigger] g.chunks@[i].1.successors@[si]).source_idx && e.2
            == g.chunks@[i].1.successors@[si].rotation && g.chunks@[e.1 as int].0.key()
            == g.chunks@[i].1.successors@[si].id.key()
}

/// The target of chunk i's si-th link is still in the graph.
pub open spec fn target_present(g: &Graph, i: int, si: int) -> bool {
    exists|ti: int|
        0 <= ti < g.chunks@.len() && (#[trigger] g.chunks@[ti]).0.key()
            == g.chunks@[i].1.successors@[si].id.key()
}

/// Some lowered entry keeps chunk i's si-th link (by its link index).
pub open spec fn link_kept(g: &Graph, i: int, si: int, succs: Seq<(usize, usize, usize)>) -> bool {
    exists|b: int|
        0 <= b < succs.len() && (#[trigger] succs[b]).0 == g.chunks@[i].1.successors@[si].source_idx
}

/// A falseness bitset matches a chunk's falseness list: bit t is set exactly
/// when chunk t's id occurs in the list.
pub open spec fn false_bits_match(g: &Graph, i: int, bits: Seq<bool>) -> bool {
    &&& bits.len() == g.chunks@.len()
    &&& forall|t: int|
        0 <= t < bits.len() ==> (bits[t] == exists|f: int|
            0 <= f < g.chunks@[i].1.false_chunks@.len() && (
            #[trigger] g.chunks@[i].1.false_chunks@[f]).key() == g.chunks@[t].0.key())
}

impl SearchGraph {
    /// Links point at real nodes, rotations fit the part count, and every
    /// falseness bitset covers the whole graph.
    pub open spec fn wf(&self) -> bool {
        &&& self.num_parts >= 1
        &&& forall|i: int, si: int|
            0 <= i < self.nodes@.len() && 0 <= si < self.nodes@[i].succs@.len() ==> (
            #[trigger] self.nodes@[i].succs@[si]).1 < self.nodes@.len()
                && self.nodes@[i].succs@[si].2 < self.num_parts
        &&& forall|i: int|
            0 <= i < self.nodes@.len() ==> bitvec_bits((#[trigger] self.nodes@[i]).falseness).len()
                == self.nodes@.len()
        &&& forall|s: int|
            0 <= s < self.starts@.len() ==> (#[trigger] self.starts@[s]).0 < self.nodes@.len()
                && self.starts@[s].1 < self.num_parts
    }

    /// Lower a chunk graph into dense indices: links to chunks that are no
    /// longer present are dropped, and each chunk's falseness list becomes a
    /// bitset over the node indices.  Node i mirrors chunk i: same score,
    /// length and end flag; each successor entry comes from one of chunk i's
    /// links (same index and rotation, target keyed like the link), every link
    /// whose target survives is kept, and falseness bit t is set exactly when
    /// chunk t's id is in chunk i's falseness list.
    #[verifier::loop_isolation(false)]
    #[verifier::rlimit(100)]
    pub fn lower(g: &Graph) -> (r: SearchGraph)
        requires
            g.wf(),
        ensures
            r.wf(),
            r.nodes@.len() == g.chunks@.len(),
            r.num_parts == g.num_parts,
            forall|i: int|
                0 <= i < r.nodes@.len() ==> (#[trigger] r.nodes@[i]).score
                    == g.chunks@[i].1.music.score && r.nodes@[i].length
                    == g.chunks@[i].1.total_length && r.nodes@[i].is_end
                    == g.chunks@[i].1.is_end,
            forall|i: int, a: int|
                0 <= i < r.nodes@.len() && 0 <= a < r.nodes@[i].succs@.len()
                    ==> succ_mirrors_link(g, i, #[trigger] r.nodes@[i].succs@[a]),
            forall|i: int, si: int|
                0 <= i < r.nodes@.len() && 0 <= si < g.chunks@[i].1.successors@.len()
                    && target_present(g, i, si) ==> #[trigger] link_kept(
                    g,
                    i,
                    si,
                    r.nodes@[i].succs@,
                ),
            forall|i: int|
                0 <= i < r.nodes@.len() ==> false_bits_match(
                    g,
                    i,
                    bitvec_bits((#[trigger] r.nodes@[i]).falseness),
                ),
    {
        let n = g.chunks.len();
        let mut nodes: Vec<SearchNode> = Vec::new();
        let mut i: usize = 0;
        while i < n
            invariant
                i <= n,
                nodes@.len() == i,
                forall|a: int, si: int|
                    0 <= a < i && 0 <= si < nodes@[a].succs@.len() ==> (
                    #[trigger] nodes@[a].succs@[si]).1 < n && nodes@[a].succs@[si].2
                        < g.num_parts,
                forall|a: int|
                    0 <= a < i ==> bitvec_bits((#[trigger] nodes@[a]).falseness).len() == n,
                forall|a: int|
                    0 <= a < i ==> (#[trigger] nodes@[a]).score == g.chunks@[a].1.music.score
                        && nodes@[a].length == g.chunks@[a].1.total_length && nodes@[a].is_end
                        == g.chunks@[a].1.is_end,
                forall|a: int, b: int|
                    0 <= a < i && 0 <= b < nodes@[a].succs@.len() ==> succ_mirrors_link(
                        g,
                        a,
                        #[trigger] nodes@[a].succs@[b],
                    ),
                forall|a: int, si: int|
                    0 <= a < i && 0 <= si < g.chunks@[a].1.successors@.len() && target_present(
                        g,
                        a,
                        si,
                    ) ==> #[trigger] link_kept(g, a, si, nodes@[a].succs@),
                forall|a: int|
                    0 <= a < i ==> false_bits_match(
                        g,
                        a,
                        bitvec_bits((#[trigger] nodes@[a]).falseness),
                    ),
            decreases n - i,
        {
            let c = &g.chunks[i].1;
            // Successor links to surviving chunks only.
            let ns = c.successors.len();
            let mut succs: Vec<(usize, usize, usize)> = Vec::new();
            let mut si: usize = 0;
            while si < ns
                invariant
                    si <= ns,
                    forall|a: int|
                        0 <= a < succs@.len() ==> (#[trigger] succs@[a]).1 < n && succs@[a].2
                            < g.num_parts,
                    forall|b: int|
                        0 <= b < succs@.len() ==> succ_mirrors_link(
                            g,
                            i as int,
                            #[trigger] succs@[b],
                        ),
                    forall|si2: int|
                        0 <= si2 < si && target_present(g, i as int, si2) ==> #[trigger] link_kept(
                            g,
                            i as int,
                            si2,
                            succs@,
                        ),
                decreases ns - si,
            {
                let ghost succs0 = succs@;
                match g.find_chunk(&g.chunks[i].1.successors[si].id) {
                    Some(ti) => {
                        let rot = g.chunks[i].1.successors[si].rotation;
                        let idx = g.chunks[i].1.successors[si].source_idx;
                        proof {
                            assert(g.chunks@[i as int].1.successors@[si as int].rotation
                                < g.num_parts);
                        }
                        succs.push((idx, ti, rot));
                        proof {
                            assert(succ_mirrors_link(g, i as int, (idx, ti, rot))) by {
                                assert(0 <= (si as int) < g.chunks@[
                                    i as int].1.successors@.len() && idx == (
                                #[trigger] g.chunks@[i as int].1.successors@[
                                    si as int]).source_idx && rot == g.chunks@[
                                    i as int].1.successors@[si as int].rotation && g.chunks@[
                                    ti as int].0.key() == g.chunks@[i as int].1.successors@[
                                    si as int].id.key());
                            }
                            assert forall|si2: int|
                                0 <= si2 < si + 1 && target_present(
                                    g,
                                    i as int,
                                    si2,
                                ) implies #[trigger] link_kept(g, i as int, si2, succs@) by {
                                if si2 == si as int {
                                    assert(succs@[succs@.len() - 1] == (idx, ti, rot));
                                } else {
                                    assert(link_kept(g, i as int, si2, succs0));
                                    let b = choose|b: int|
                                        0 <= b < succs0.len() && (#[trigger] succs0[b]).0
                                            == g.chunks@[i as int].1.successors@[
                                            si2].source_idx;
                                    assert(succs@[b] == succs0[b]);
                                }
                            }
                        }
                    },
                    None => {
                        proof {
                            assert forall|si2: int|
                                0 <= si2 < si + 1 && target_present(
                                    g,
                                    i as int,
                                    si2,
                                ) implies #[trigger] link_kept(g, i as int, si2, succs@) by {
                                if si2 == si as int {
                                    assert(false);
                                }
                            }
                        }
                    },
                }
                si += 1;
            }
            // Falseness bitset over node indices.
            let mut falseness = bv_from_elem(n, false);
            let nf = c.false_chunks.len();
            let mut fi: usize = 0;
            while fi < nf
                invariant
                    fi <= nf,
                    bitvec_bits(falseness).len() == n,
                    forall|t: int|
                        0 <= t < n ==> (#[trigger] bitvec_bits(falseness)[t] == exists|f: int|
                            0 <= f < fi && (#[trigger] g.chunks@[
                            i as int].1.false_chunks@[f]).key() == g.chunks@[t].0.key()),
                decreases nf - fi,
            {
                let ghost bits0 = bitvec_bits(falseness);
                match g.find_chunk(&g.chunks[i].1.false_chunks[fi].duplicate()) {
                    Some(ti) => {
                        bv_set(&mut falseness, ti, true);
                        proof {
                            assert forall|t: int|
                                0 <= t < n implies (#[trigger] bitvec_bits(falseness)[t]
                                == exists|f: int|
                                0 <= f < fi + 1 && (#[trigger] g.chunks@[
                                i as int].1.false_chunks@[f]).key()
                                    == g.chunks@[t].0.key()) by {
                                if t == ti as int {
                                    assert(g.chunks@[i as int].1.false_chunks@[fi as int].key()
                                        == g.chunks@[t].0.key());
                                } else {
                                    assert(bitvec_bits(falseness)[t] == bits0[t]);
                                    // A hit at another index cannot carry this
                                    // chunk's key: keys are unique.
                                    if exists|f: int|
                                        0 <= f < fi + 1 && (#[trigger] g.chunks@[
                                        i as int].1.false_chunks@[f]).key() == g.chunks@[
                                        t].0.key() {
                                        let f = choose|f: int|
                                            0 <= f < fi + 1 && (#[trigger] g.chunks@[
                                            i as int].1.false_chunks@[f]).key() == g.chunks@[
                                            t].0.key();
                                        if f == fi as int {
                                            assert(g.chunks@[ti as int].0.key() == g.chunks@[
                                                i as int].1.false_chunks@[fi as int].key());
                                            assert(false);
                                        }
                                    }
                                }
                            }
                        }
                    },
                    None => {
                        proof {
                            assert forall|t: int|
                                0 <= t < n implies (#[trigger] bitvec_bits(falseness)[t]
                                == exists|f: int|
                                0 <= f < fi + 1 && (#[trigger] g.chunks@[
                                i as int].1.false_chunks@[f]).key()
                                    == g.chunks@[t].0.key()) by {
                                if exists|f: int|
                                    0 <= f < fi + 1 && (#[trigger] g.chunks@[
                                    i as int].1.false_chunks@[f]).key() == g.chunks@[
                                    t].0.key() {
                                    let f = choose|f: int|
                                        0 <= f < fi + 1 && (#[trigger] g.chunks@[
                                        i as int].1.false_chunks@[f]).key() == g.chunks@[
                                        t].0.key();
                                    if f == fi as int {
                                        assert(false);
                                    }
                                }
                            }
                        }
                    },
                }
                fi += 1;
            }
            let c = &g.chunks[i].1;
            let ghost succs_snap = succs@;
            let ghost bits_snap = bitvec_bits(falseness);
            nodes.push(
                SearchNode {
                    succs,
                    falseness,
                    score: c.music.score,
                    length: c.total_length,
                    is_end: c.is_end,
                },
            );
            proof {
                let ii = i as int;
                assert(nodes@[ii].succs@ == succs_snap);
                assert(bitvec_bits(nodes@[ii].falseness) == bits_snap);
                assert(false_bits_match(g, ii, bitvec_bits(nodes@[ii].falseness)));
                assert forall|si2: int|
                    0 <= si2 < g.chunks@[ii].1.successors@.len() && target_present(
                        g,
                        ii,
                        si2,
                    ) implies #[trigger] link_kept(g, ii, si2, nodes@[ii].succs@) by {
                    assert(link_kept(g, ii, si2, succs_snap));
                }
            }
            i += 1;
        }
        // Starts whose chunk survived.
        let mut starts: Vec<(usize, usize)> = Vec::new();
        let num_starts = g.start_chunks.len();
        let mut s: usize = 0;
        while s < num_starts
            invariant
                s <= num_starts,
                forall|a: int|
                    0 <= a < starts@.len() ==> (#[trigger] starts@[a]).0 < n && starts@[a].1
                        < g.num_parts,
            decreases num_starts - s,
        {
            match g.find_chunk(&g.start_chunks[s].0) {
                Some(ti) => {
                    if g.start_chunks[s].2 < g.num_parts {
                        starts.push((ti, g.start_chunks[s].2));
                    }
                },
                None => {},
            }
            s += 1;
        }
        SearchGraph { nodes, starts, num_parts: g.num_parts }
    }
}

/// The node a path ends on: the start node for an empty path, else the
/// target of the last step taken.
pub open spec fn path_end_node(g: &SearchGraph, start_idx: int, path: Seq<(usize, usize)>) -> int
    decreases path.len(),
{
    if path.len() == 0 {
        g.starts@[start_idx].0 as int
    } else {
        g.nodes@[path.last().0 as int].succs@[path.last().1 as int].1 as int
    }
}

/// A path is a real walk through the graph: it starts at a start chunk, and
/// each step records the node it left and which of that node's successor
/// links it took.
pub open spec fn path_valid(g: &SearchGraph, start_idx: int, path: Seq<(usize, usize)>) -> bool
    decreases path.len(),
{
    if path.len() == 0 {
        0 <= start_idx < g.starts@.len()
    } else {
        &&& path_valid(g, start_idx, path.drop_last())
        &&& path.last().0 as int == path_end_node(g, start_idx, path.drop_last())
        &&& 0 <= path.last().0 < g.nodes@.len()
        &&& 0 <= path.last().1 < g.nodes@[path.last().0 as int].succs@.len()
    }
}

/// The rows a path adds up to: the lengths of every node visited, the start
/// node included.
pub open spec fn path_length(g: &SearchGraph, start_idx: int, path: Seq<(usize, usize)>) -> int
    decreases path.len(),
{
    if path.len() == 0 {
        g.nodes@[g.starts@[start_idx].0 as int].length as int
    } else {
        path_length(g, start_idx, path.drop_last()) + g.nodes@[path_end_node(
            g,
            start_idx,
            path,
        )].length
    }
}

/// The score a path adds up to, saturating like the search itself.
pub open spec fn path_score(g: &SearchGraph, start_idx: int, path: Seq<(usize, usize)>) -> int
    decreases path.len(),
{
    if path.len() == 0 {
        g.nodes@[g.starts@[start_idx].0 as int].score as int
    } else {
        crate::music::sat_add_i64(
            path_score(g, start_idx, path.drop_last()),
            g.nodes@[path_end_node(g, start_idx, path)].score as int,
        )
    }
}

/// The part-head rotation a path accumulates, modulo the part count.
pub open spec fn path_rotation(g: &SearchGraph, start_idx: int, path: Seq<(usize, usize)>) -> int
    decreases path.len(),
{
    if path.len() == 0 {
        g.starts@[start_idx].1 as int
    } else {
        (path_rotation(g, start_idx, path.drop_last()) + g.nodes@[path.last().0 as int].succs@[path.last().1 as int].2) % (
        g.num_parts as int)
    }
}

/// Every node a path visits, in order, the start node first.
pub open spec fn path_nodes(g: &SearchGraph, start_idx: int, path: Seq<(usize, usize)>) -> Seq<int>
    decreases path.len(),
{
    if path.len() == 0 {
        seq![g.starts@[start_idx].0 as int]
    } else {
        path_nodes(g, start_idx, path.drop_last()).push(path_end_node(g, start_idx, path))
    }
}

/// No node of the path is false against any earlier one: each visited node's
/// falseness bit is clear in every earlier node's bitset.
pub open spec fn path_true(g: &SearchGraph, start_idx: int, path: Seq<(usize, usize)>) -> bool {
    forall|a: int, b: int|
        0 <= a < b < path_nodes(g, start_idx, path).len() ==> !bitvec_bits(
            g.nodes@[path_nodes(g, start_idx, path)[a]].falseness,
        )[path_nodes(g, start_idx, path)[b]]
}

/// The prefix's bitset covers the falseness of everything visited so far.
pub open spec fn unreachable_covers(
    g: &SearchGraph,
    start_idx: int,
    path: Seq<(usize, usize)>,
    u: bit_vec::BitVec,
) -> bool {
    forall|a: int, t: int|
        0 <= a < path_nodes(g, start_idx, path).len() && 0 <= t < g.nodes@.len() && bitvec_bits(
            g.nodes@[path_nodes(g, start_idx, path)[a]].falseness,
        )[t] ==> bitvec_bits(u)[t]
}

/// A completed composition really is a walk of the graph: a valid path from a
/// start chunk to an end chunk, internally true, whose length, score and
/// rotation are the sums over the nodes and links it visits.
pub open spec fn comp_valid(g: &SearchGraph, c: Comp) -> bool {
    &&& path_valid(g, c.start_idx as int, c.path@)
    &&& 0 <= path_end_node(g, c.start_idx as int, c.path@) < g.nodes@.len()
    &&& g.nodes@[path_end_node(g, c.start_idx as int, c.path@)].is_end
    &&& c.length as int == path_length(g, c.start_idx as int, c.path@)
    &&& c.score as int == path_score(g, c.start_idx as int, c.path@)
    &&& c.rotation as int == path_rotation(g, c.start_idx as int, c.path@)
    &&& path_true(g, c.start_idx as int, c.path@)
}

/// A completed composition, as a path through the search graph.
pub struct Comp {
    pub start_idx: usize,
    pub path: Vec<(usize, usize)>,
    pub length: usize,
    pub score: i64,
    pub rotation: usize,
}

/// The prefix of a composition under construction.
pub struct CompPrefix {
    pub start_idx: usize,
    pub path: Vec<(usize, usize)>,
    pub node: usize,
    pub unreachable: bit_vec::BitVec,
    pub score: i64,
    pub length: usize,
    pub rotation: usize,
}

impl CompPrefix {
    pub open spec fn wf(&self, g: &SearchGraph) -> bool {
        &&& self.node < g.nodes@.len()
        &&& bitvec_bits(self.unreachable).len() == g.nodes@.len()
        &&& self.rotation < g.num_parts
        &&& path_valid(g, self.start_idx as int, self.path@)
        &&& self.node as int == path_end_node(g, self.start_idx as int, self.path@)
        &&& self.length as int == path_length(g, self.start_idx as int, self.path@)
        &&& self.score as int == path_score(g, self.start_idx as int, self.path@)
        &&& self.rotation as int == path_rotation(g, self.start_idx as int, self.path@)
        &&& path_true(g, self.start_idx as int, self.path@)
        &&& unreachable_covers(g, self.start_idx as int, self.path@, self.unreachable)
    }
}

/// The frontier's priority order: average score per row, compared without
/// division; a zero-length prefix ranks below everything.
pub open spec fn spec_prefix_ge(sa: int, la: int, sb: int, lb: int) -> bool {
    if lb == 0 {
        true
    } else if la == 0 {
        false
    } else {
        sa * lb >= sb * la
    }
}

/// Whether the first prefix ranks at least as high as the second.
fn prefix_ge(score_a: i64, len_a: usize, score_b: i64, len_b: usize) -> (r: bool)
    ensures
        r == spec_prefix_ge(score_a as int, len_a as int, score_b as int, len_b as int),
{
    if len_b == 0 {
        return true;
    }
    if len_a == 0 {
        return false;
    }
    avg_ge(score_a, len_a, score_b, len_b)
}

/// Average-score comparison by cross-multiplication.
fn avg_ge(score_a: i64, len_a: usize, score_b: i64, len_b: usize) -> (r: bool)
    ensures
        r == (score_a as int * len_b as int >= score_b as int * len_a as int),
{
    proof {
        assert(i128::MIN <= score_a as int * len_b as int <= i128::MAX) by (nonlinear_arith)
            requires
                i64::MIN <= score_a <= i64::MAX,
                0 <= len_b <= u64::MAX,
        ;
        assert(i128::MIN <= score_b as int * len_a as int <= i128::MAX) by (nonlinear_arith)
            requires
                i64::MIN <= score_b <= i64::MAX,
                0 <= len_a <= u64::MAX,
        ;
    }
    let lhs: i128 = (score_a as i128) * (len_b as i128);
    let rhs: i128 = (score_b as i128) * (len_a as i128);
    lhs >= rhs
}

/// Remove and return a prefix that ranks highest: no remaining prefix ranks
/// above it in the frontier's priority order.
fn pop_best(frontier: &mut Vec<CompPrefix>, Ghost(g): Ghost<&SearchGraph>) -> (r: CompPrefix)
    requires
        old(frontier)@.len() >= 1,
        forall|i: int| 0 <= i < old(frontier)@.len() ==> (#[trigger] old(frontier)@[i]).wf(g),
    ensures
        final(frontier)@.len() == old(frontier)@.len() - 1,
        forall|i: int| 0 <= i < final(frontier)@.len() ==> (#[trigger] final(frontier)@[i]).wf(g),
        r.wf(g),
        forall|i: int|
            0 <= i < final(frontier)@.len() ==> spec_prefix_ge(
                r.score as int,
                r.length as int,
                (#[trigger] final(frontier)@[i]).score as int,
                final(frontier)@[i].length as int,
            ),
{
    let n = frontier.len();
    let mut best: usize = 0;
    let mut i: usize = 1;
    while i < n
        invariant
            n == frontier@.len(),
            n >= 1,
            best < n,
            i <= n,
            forall|j: int|
                0 <= j < i ==> spec_prefix_ge(
                    frontier@[best as int].score as int,
                    frontier@[best as int].length as int,
                    (#[trigger] frontier@[j]).score as int,
                    frontier@[j].length as int,
                ),
        decreases n - i,
    {
        if !prefix_ge(
            frontier[best].score,
            frontier[best].length,
            frontier[i].score,
            frontier[i].length,
        ) {
            proof {
                // The order is total, so the candidate dominates the old best,
                // and by transitivity everything the old best dominated.
                assert(spec_prefix_ge(
                    frontier@[i as int].score as int,
                    frontier@[i as int].length as int,
                    frontier@[best as int].score as int,
                    frontier@[best as int].length as int,
                ));
                assert forall|j: int| 0 <= j < i + 1 implies spec_prefix_ge(
                    frontier@[i as int].score as int,
                    frontier@[i as int].length as int,
                    (#[trigger] frontier@[j]).score as int,
                    frontier@[j].length as int,
                ) by {
                    if j < i {
                        lemma_prefix_ge_trans(
                            frontier@[i as int].score as int,
                            frontier@[i as int].length as int,
                            frontier@[best as int].score as int,
                            frontier@[best as int].length as int,
                            frontier@[j].score as int,
                            frontier@[j].length as int,
                        );
                    }
                }
            }
            best = i;
        }
        i += 1;
    }
    let ghost pre = frontier@;
    let ghost b = best as int;
    let r = frontier.swap_remove(best);
    proof {
        assert forall|i2: int| 0 <= i2 < frontier@.len() implies spec_prefix_ge(
            r.score as int,
            r.length as int,
            (#[trigger] frontier@[i2]).score as int,
            frontier@[i2].length as int,
        ) by {
            if i2 == b {
                assert(frontier@[i2] == pre[pre.len() - 1]);
            } else {
                assert(frontier@[i2] == pre[i2]);
            }
        }
    }
    r
}

/// The frontier's priority order is transitive: zero-length prefixes sit at
/// the bottom, and among the rest cross-multiplication chains through a
/// positive middle length.
proof fn lemma_prefix_ge_trans(sa: int, la: int, sb: int, lb: int, sc: int, lc: int)
    requires
        la >= 0,
        lb >= 0,
        lc >= 0,
        spec_prefix_ge(sa, la, sb, lb),
        spec_prefix_ge(sb, lb, sc, lc),
    ensures
        spec_prefix_ge(sa, la, sc, lc),
{
    if lc == 0 {
    } else {
        assert(lb > 0);
        assert(la > 0);
        assert((sa * lb) * lc >= (sb * la) * lc) by (nonlinear_arith)
            requires
                sa * lb >= sb * la,
                lc >= 0,
        ;
        assert((sb * lc) * la >= (sc * lb) * la) by (nonlinear_arith)
            requires
                sb * lc >= sc * lb,
                la >= 0,
        ;
        assert(sa * lc * lb >= sc * la * lb) by (nonlinear_arith)
            requires
                (sa * lb) * lc >= (sb * la) * lc,
                (sb * lc) * la >= (sc * lb) * la,
        ;
        assert(sa * lc >= sc * la) by (nonlinear_arith)
            requires
                sa * lc * lb >= sc * la * lb,
                lb > 0,
        ;
    }
}

/// The number of compositions to stop after, the inclusive length range, and
/// the queue cap.
pub struct SearchParams {
    pub num_comps: usize,
    pub min_length: usize,
    pub max_length: usize,
    pub queue_limit: usize,
}

/// Why a search stopped.
#[derive(PartialEq, Eq, Structural, Clone, Copy, Debug)]
pub enum Termination {
    /// The requested number of compositions was emitted.
    CompsFound,
    /// The frontier ran dry.
    FrontierEmpty,
    /// The iteration budget ran out.
    BudgetExhausted,
    /// The caller asked the search to stop.
    Aborted,
}

/// Expand one prefix: push every viable extension, respecting falseness and
/// the length cap.
#[verifier::loop_isolation(false)]
#[verifier::rlimit(60)]
fn expand(g: &SearchGraph, prefix: &CompPrefix, max_length: usize, frontier: &mut Vec<CompPrefix>)
    requires
        g.wf(),
        prefix.wf(g),
        forall|i: int| 0 <= i < old(frontier)@.len() ==> (#[trigger] old(frontier)@[i]).wf(g),
    ensures
        forall|i: int| 0 <= i < final(frontier)@.len() ==> (#[trigger] final(frontier)@[i]).wf(g),
{
    let node = prefix.node;
    let ns = g.nodes[node].succs.len();
    let mut si: usize = 0;
    while si < ns
        invariant
            si <= ns,
            forall|i: int| 0 <= i < frontier@.len() ==> (#[trigger] frontier@[i]).wf(g),
        decreases ns - si,
    {
        let (link_idx, succ, link_rot) = g.nodes[node].succs[si];
        // A chunk already false against the prefix is skipped.
        if !bv_get(&prefix.unreachable, succ) {
            let succ_len = g.nodes[succ].length;
            match prefix.length.checked_add(succ_len) {
                Some(new_length) => {
                    if new_length <= max_length {
                        let mut unreachable = bv_clone(&prefix.unreachable);
                        let ghost u1 = bitvec_bits(unreachable);
                        bv_or(&mut unreachable, &g.nodes[succ].falseness);
                        proof {
                            assert(u1 == bitvec_bits(prefix.unreachable));
                            assert(bitvec_bits(unreachable).len() == g.nodes@.len());
                            assert forall|t: int|
                                0 <= t < g.nodes@.len() implies #[trigger] bitvec_bits(
                                unreachable,
                            )[t] == (bitvec_bits(prefix.unreachable)[t] || bitvec_bits(
                                g.nodes@[succ as int].falseness,
                            )[t]) by {
                                assert(bitvec_bits(unreachable)[t] == (u1[t] || bitvec_bits(
                                    g.nodes@[succ as int].falseness,
                                )[t]));
                            }
                        }
                        let ghost u2 = bitvec_bits(unreachable);
                        let new_score = crate::music::score_add(
                            prefix.score,
                            g.nodes[succ].score,
                        );
                        let mut path = Vec::new();
                        let np = prefix.path.len();
                        let mut pi: usize = 0;
                        while pi < np
                            invariant
                                pi <= np,
                                path@.len() == pi,
                                forall|j: int| 0 <= j < pi ==> path@[j] == prefix.path@[j],
                            decreases np - pi,
                        {
                            path.push(prefix.path[pi]);
                            pi += 1;
                        }
                        path.push((node, si));
                        let rotation = crate::mod_add(prefix.rotation, link_rot, g.num_parts);
                        let next = CompPrefix {
                            start_idx: prefix.start_idx,
                            path,
                            node: succ,
                            unreachable,
                            score: new_score,
                            length: new_length,
                            rotation,
                        };
                        proof {
                            let st = prefix.start_idx as int;
                            let old_path = prefix.path@;
                            let new_path = next.path@;
                            assert(new_path.drop_last() =~= old_path);
                            assert(new_path.last() == (node, si));
                            // The step really follows successor `si` of the
                            // prefix's end node.
                            assert(path_valid(g, st, new_path));
                            assert(path_end_node(g, st, new_path) == succ as int);
                            assert(next.length as int == path_length(g, st, new_path));
                            assert(next.score as int == path_score(g, st, new_path));
                            assert(next.rotation as int == path_rotation(g, st, new_path));
                            // Visited nodes extend by the new target.
                            let old_nodes = path_nodes(g, st, old_path);
                            let new_nodes = path_nodes(g, st, new_path);
                            assert(new_nodes == old_nodes.push(succ as int));
                            lemma_path_nodes_len(g, st, old_path);
                            lemma_path_nodes_range(g, st, old_path);
                            // The new node is not false against anything
                            // visited: its bit was clear in the prefix's
                            // accumulated bitset, which covers them all.
                            assert(path_true(g, st, new_path)) by {
                                assert forall|a: int, b: int|
                                    0 <= a < b < new_nodes.len() implies !bitvec_bits(
                                    g.nodes@[new_nodes[a]].falseness,
                                )[new_nodes[b]] by {
                                    if b == new_nodes.len() - 1 {
                                        assert(new_nodes[a] == old_nodes[a]);
                                        assert(new_nodes[b] == succ as int);
                                        if bitvec_bits(g.nodes@[old_nodes[a]].falseness)[
                                            succ as int] {
                                            assert(bitvec_bits(prefix.unreachable)[succ as int]);
                                        }
                                    } else {
                                        assert(new_nodes[a] == old_nodes[a]);
                                        assert(new_nodes[b] == old_nodes[b]);
                                    }
                                }
                            }
                            // The grown bitset covers the grown path.
                            assert(unreachable_covers(g, st, new_path, next.unreachable)) by {
                                assert forall|a: int, t: int|
                                    0 <= a < new_nodes.len() && 0 <= t < g.nodes@.len()
                                        && bitvec_bits(g.nodes@[new_nodes[a]].falseness)[t]
                                    implies bitvec_bits(next.unreachable)[t] by {
                                    assert(bitvec_bits(next.unreachable) == u2);
                                    assert(u2[t] == (bitvec_bits(prefix.unreachable)[t]
                                        || bitvec_bits(g.nodes@[succ as int].falseness)[t]));
                                    if a < new_nodes.len() - 1 {
                                        assert(new_nodes[a] == old_nodes[a]);
                                        assert(bitvec_bits(prefix.unreachable)[t]);
                                    } else {
                                        assert(new_nodes[a] == succ as int);
                                    }
                                }
                            }
                            assert(next.wf(g));
                        }
                        frontier.push(next);
                    }
                },
                None => {},
            }
        }
        si += 1;
    }
}

/// A path visits one more node than it has steps.
proof fn lemma_path_nodes_len(g: &SearchGraph, start_idx: int, path: Seq<(usize, usize)>)
    ensures
        path_nodes(g, start_idx, path).len() == path.len() + 1,
    decreases path.len(),
{
    if path.len() > 0 {
        lemma_path_nodes_len(g, start_idx, path.drop_last());
    }
}

/// Every node a valid path visits is a node of the graph.
proof fn lemma_path_nodes_range(g: &SearchGraph, start_idx: int, path: Seq<(usize, usize)>)
    requires
        g.wf(),
        path_valid(g, start_idx, path),
    ensures
        forall|a: int|
            0 <= a < path_nodes(g, start_idx, path).len() ==> 0 <= #[trigger] path_nodes(
                g,
                start_idx,
                path,
            )[a] < g.nodes@.len(),
    decreases path.len(),
{
    lemma_path_nodes_len(g, start_idx, path);
    if path.len() == 0 {
    } else {
        lemma_path_nodes_range(g, start_idx, path.drop_last());
        lemma_path_nodes_len(g, start_idx, path.drop_last());
        assert(path_end_node(g, start_idx, path) == g.nodes@[path.last().0 as int].succs@[
            path.last().1 as int].1 as int);
    }
}

/// Keep only the `keep` highest-ranked prefixes, selected best-first.
fn truncate_frontier(frontier: &mut Vec<CompPrefix>, keep: usize, Ghost(g): Ghost<&SearchGraph>)
    requires
        forall|i: int| 0 <= i < old(frontier)@.len() ==> (#[trigger] old(frontier)@[i]).wf(g),
    ensures
        final(frontier)@.len() == (if old(frontier)@.len() < keep {
            old(frontier)@.len() as int
        } else {
            keep as int
        }),
        forall|i: int| 0 <= i < final(frontier)@.len() ==> (#[trigger] final(frontier)@[i]).wf(g),
{
    let ghost old_len = frontier@.len();
    let mut kept: Vec<CompPrefix> = Vec::new();
    let mut k: usize = 0;
    while k < keep && frontier.len() > 0
        invariant
            kept@.len() == k,
            k <= keep,
            frontier@.len() + k == old_len,
            forall|i: int| 0 <= i < frontier@.len() ==> (#[trigger] frontier@[i]).wf(g),
            forall|i: int| 0 <= i < kept@.len() ==> (#[trigger] kept@[i]).wf(g),
        decreases keep - k,
    {
        let p = pop_best(frontier, Ghost(g));
        kept.push(p);
        k += 1;
    }
    frontier.clear();
    let nk = kept.len();
    proof {
        assert(nk == (if old_len < keep { old_len as int } else { keep as int }));
    }
    while kept.len() > 0
        invariant
            nk <= keep,
            nk == (if old_len < keep {
                old_len as int
            } else {
                keep as int
            }),
            frontier@.len() + kept@.len() == nk,
            forall|j: int| 0 <= j < kept@.len() ==> (#[trigger] kept@[j]).wf(g),
            forall|j: int| 0 <= j < frontier@.len() ==> (#[trigger] frontier@[j]).wf(g),
        decreases kept@.len(),
    {
        let ghost kept0 = kept@;
        let p = kept.remove(0);
        proof {
            assert(p == kept0[0]);
            assert forall|j: int| 0 <= j < kept@.len() implies (#[trigger] kept@[j]).wf(g) by {
                assert(kept@[j] == kept0[j + 1]);
            }
        }
        frontier.push(p);
    }
}

/// Seed one frontier entry per start chunk.
fn seed_frontier(g: &SearchGraph) -> (r: Vec<CompPrefix>)
    requires
        g.wf(),
    ensures
        r@.len() == g.starts@.len(),
        forall|i: int| 0 <= i < r@.len() ==> (#[trigger] r@[i]).wf(g),
{
    let mut frontier: Vec<CompPrefix> = Vec::new();
    let num_starts = g.starts.len();
    let mut s: usize = 0;
    while s < num_starts
        invariant
            g.wf(),
            num_starts == g.starts@.len(),
            s <= num_starts,
            frontier@.len() == s,
            forall|i: int| 0 <= i < frontier@.len() ==> (#[trigger] frontier@[i]).wf(g),
        decreases num_starts - s,
    {
        let (node, rot) = g.starts[s];
        let seed = CompPrefix {
            start_idx: s,
            path: Vec::new(),
            node,
            unreachable: bv_clone(&g.nodes[node].falseness),
            score: g.nodes[node].score,
            length: g.nodes[node].length,
            rotation: rot,
        };
        proof {
            let st = s as int;
            let empty = seed.path@;
            assert(empty.len() == 0);
            assert(path_valid(g, st, empty));
            assert(path_end_node(g, st, empty) == node as int);
            assert(path_nodes(g, st, empty) == seq![node as int]);
            assert(path_true(g, st, empty));
            assert(unreachable_covers(g, st, empty, seed.unreachable)) by {
                assert forall|a: int, t: int|
                    0 <= a < path_nodes(g, st, empty).len() && 0 <= t < g.nodes@.len()
                        && bitvec_bits(g.nodes@[path_nodes(g, st, empty)[a]].falseness)[t]
                    implies bitvec_bits(seed.unreachable)[t] by {
                    assert(path_nodes(g, st, empty)[a] == node as int);
                }
            }
            assert(seed.wf(g));
        }
        frontier.push(seed);
        s += 1;
    }
    frontier
}

/// Run the whole search: emit up to `num_comps` compositions, best first.
/// Every emitted composition is a real, internally true path of the graph
/// from a start chunk to an end chunk, round (rotation zero) and of a length
/// inside the requested range; the search stops exactly when the requested
/// count is reached, the frontier is exhausted, or the huge iteration budget
/// runs out.
pub fn run_search(g: &SearchGraph, params: &SearchParams) -> (r: (Vec<Comp>, Termination))
    requires
        g.wf(),
        params.min_length <= params.max_length,
    ensures
        r.0@.len() <= params.num_comps,
        forall|i: int|
            0 <= i < r.0@.len() ==> params.min_length <= (#[trigger] r.0@[i]).length
                && r.0@[i].length <= params.max_length && r.0@[i].rotation == 0,
        forall|i: int| 0 <= i < r.0@.len() ==> comp_valid(g, #[trigger] r.0@[i]),
        r.1 is CompsFound ==> r.0@.len() == params.num_comps,
{
    let mut frontier: Vec<CompPrefix> = seed_frontier(g);
    let mut comps: Vec<Comp> = Vec::new();
    let mut budget: u64 = u64::MAX;
    loop
        invariant
            g.wf(),
            params.min_length <= params.max_length,
            forall|i: int| 0 <= i < frontier@.len() ==> (#[trigger] frontier@[i]).wf(g),
            comps@.len() <= params.num_comps,
            forall|i: int|
                0 <= i < comps@.len() ==> params.min_length <= (#[trigger] comps@[i]).length
                    && comps@[i].length <= params.max_length && comps@[i].rotation == 0,
            forall|i: int| 0 <= i < comps@.len() ==> comp_valid(g, #[trigger] comps@[i]),
        decreases budget,
    {
        if comps.len() == params.num_comps {
            return (comps, Termination::CompsFound);
        }
        if frontier.len() == 0 {
            return (comps, Termination::FrontierEmpty);
        }
        if budget == 0 {
            return (comps, Termination::BudgetExhausted);
        }
        budget = budget - 1;
        let prefix = pop_best(&mut frontier, Ghost(g));
        // A round end chunk of fitting length completes a composition; ends
        // are not expanded further.
        if g.nodes[prefix.node].is_end {
            if prefix.rotation == 0 && params.min_length <= prefix.length && prefix.length
                <= params.max_length {
                let c = Comp {
                    start_idx: prefix.start_idx,
                    path: prefix.path,
                    length: prefix.length,
                    score: prefix.score,
                    rotation: prefix.rotation,
                };
                proof {
                    assert(comp_valid(g, c));
                }
                comps.push(c);
            }
        } else {
            expand(g, &prefix, params.max_length, &mut frontier);
            if frontier.len() >= params.queue_limit {
                truncate_frontier(&mut frontier, params.queue_limit / 2, Ghost(g));
            }
        }
    }
}

} // verus!

verus! {

/// A status report from a running search.
pub struct Progress {
    pub iter_count: usize,
    pub num_comps: usize,
    pub queue_len: usize,
    pub max_length: usize,
    pub truncating_queue: bool,
}

/// One update from a stepped search.
pub enum QueryUpdate {
    /// A new composition has been found.
    Comp(Comp),
    /// The search is still going; a status report.
    Progress(Progress),
    /// The search saw the abort signal and is stopping.
    Aborting,
    /// The search has finished.
    Done(Termination),
}

/// A stepped search: the caller drives it one frontier pop at a time and may
/// signal an abort between steps.
pub struct Search {
    pub graph: SearchGraph,
    pub params: SearchParams,
    pub frontier: Vec<CompPrefix>,
    pub comps_found: usize,
    pub iter_count: usize,
    pub aborted: bool,
    pub acknowledged: bool,
    pub done: bool,
    pub finished: Option<Termination>,
}

impl Search {
    pub open spec fn wf(&self) -> bool {
        &&& self.graph.wf()
        &&& self.params.min_length <= self.params.max_length
        &&& forall|i: int| 0 <= i < self.frontier@.len() ==> (#[trigger] self.frontier@[i]).wf(&self.graph)
        &&& self.comps_found <= self.params.num_comps
        &&& (self.done ==> self.finished is Some)
        &&& (self.finished == Some(Termination::FrontierEmpty) ==> self.frontier@.len() == 0)
    }

    /// Set up a search over a lowered graph.
    pub fn new(graph: SearchGraph, params: SearchParams) -> (r: Search)
        requires
            graph.wf(),
            params.min_length <= params.max_length,
        ensures
            r.wf(),
            !r.aborted,
            !r.done,
    {
        let frontier = seed_frontier(&graph);
        Search {
            graph,
            params,
            frontier,
            comps_found: 0,
            iter_count: 0,
            aborted: false,
            acknowledged: false,
            done: false,
            finished: None,
        }
    }

    /// Ask the search to stop: after this, no step ever yields a composition
    /// again.
    pub fn signal_abort(&mut self)
        requires
            old(self).wf(),
        ensures
            final(self).wf(),
            final(self).aborted,
    {
        self.aborted = true;
    }

    /// Run one step of the search.  An aborted search acknowledges the abort
    /// once and is then done: it never emits another composition.  Every
    /// composition a step yields is a real, internally true path of the graph
    /// ending on a round end chunk inside the length range; `FrontierEmpty`
    /// is only ever reported when the frontier really is empty.
    pub fn step(&mut self) -> (u: QueryUpdate)
        requires
            old(self).wf(),
        ensures
            final(self).wf(),
            final(self).graph == old(self).graph,
            final(self).params == old(self).params,
            final(self).aborted == old(self).aborted,
            old(self).aborted ==> (u is Aborting || u is Done) && !(u is Comp),
            old(self).done ==> u is Done,
            u matches QueryUpdate::Comp(c) ==> !old(self).aborted
                && old(self).params.min_length <= c.length && c.length
                <= old(self).params.max_length && c.rotation == 0 && comp_valid(
                &old(self).graph,
                c,
            ),
            u == QueryUpdate::Done(Termination::FrontierEmpty) ==> final(self).frontier@.len()
                == 0,
    {
        if self.done {
            let reason = match self.finished {
                Some(t) => t,
                None => {
                    proof {
                        assert(false);
                    }
                    Termination::FrontierEmpty
                },
            };
            return QueryUpdate::Done(reason);
        }
        if self.aborted {
            self.done = true;
            self.finished = Some(Termination::Aborted);
            if !self.acknowledged {
                self.acknowledged = true;
                return QueryUpdate::Aborting;
            }
            return QueryUpdate::Done(Termination::Aborted);
        }
        if self.comps_found == self.params.num_comps {
            self.done = true;
            self.finished = Some(Termination::CompsFound);
            return QueryUpdate::Done(Termination::CompsFound);
        }
        if self.frontier.len() == 0 {
            self.done = true;
            self.finished = Some(Termination::FrontierEmpty);
            return QueryUpdate::Done(Termination::FrontierEmpty);
        }
        let prefix = pop_best(&mut self.frontier, Ghost(&self.graph));
        self.iter_count = self.iter_count.saturating_add(1);
        if self.graph.nodes[prefix.node].is_end {
            if prefix.rotation == 0 && self.params.min_length <= prefix.length && prefix.length
                <= self.params.max_length {
                self.comps_found = self.comps_found + 1;
                let c = Comp {
                    start_idx: prefix.start_idx,
                    path: prefix.path,
                    length: prefix.length,
                    score: prefix.score,
                    rotation: prefix.rotation,
                };
                proof {
                    assert(comp_valid(&self.graph, c));
                }
                return QueryUpdate::Comp(c);
            }
        } else {
            let max_length = self.params.max_length;
            let mut frontier = Vec::new();
            core::mem::swap(&mut frontier, &mut self.frontier);
            expand(&self.graph, &prefix, max_length, &mut frontier);
            let mut truncating = false;
            if frontier.len() >= self.params.queue_limit {
                truncate_frontier(
                    &mut frontier,
                    self.params.queue_limit / 2,
                    Ghost(&self.graph),
                );
                truncating = true;
            }
            let queue_len = frontier.len();
            core::mem::swap(&mut frontier, &mut self.frontier);
            return QueryUpdate::Progress(
                Progress {
                    iter_count: self.iter_count,
                    num_comps: self.comps_found,
                    queue_len,
                    max_length: self.params.max_length,
                    truncating_queue: truncating,
                },
            );
        }
        QueryUpdate::Progress(
            Progress {
                iter_count: self.iter_count,
                num_comps: self.comps_found,
                queue_len: self.frontier.len(),
                max_length: self.params.max_length,
                truncating_queue: false,
            },
        )
    }
}

} // verus!
