//! Optimisation passes over the chunk graph.  Passes preserve the set of true
//! compositions the graph generates while making it smaller to search.

use vstd::prelude::*;
use crate::graph::{Graph, Chunk, ChunkId, Link, has_pred_entry, spec_inv_rotation, key_in_false_list};

verus! {

/// The direction a directional pass runs in.
#[derive(PartialEq, Eq, Structural, Clone, Copy, Debug)]
pub enum Direction {
    Forward,
    Backward,
}

impl Direction {
    /// The other direction.
    pub fn opposite(self) -> (r: Direction)
        ensures
            r == (match self {
                Direction::Forward => Direction::Backward,
                Direction::Backward => Direction::Forward,
            }),
    {
        match self {
            Direction::Forward => Direction::Backward,
            Direction::Backward => Direction::Forward,
        }
    }
}

/// A measure of a graph's size, compared component-wise.
#[derive(PartialEq, Eq, Structural, Clone, Copy, Debug)]
pub struct Size {
    pub num_chunks: usize,
    pub num_links: usize,
    pub num_starts: usize,
    pub num_ends: usize,
}

impl Size {
    /// Measure a graph.
    pub fn of_graph(g: &Graph) -> (r: Size)
        ensures
            r.num_chunks == g.chunks@.len(),
            r.num_starts == g.start_chunks@.len(),
            r.num_ends == g.end_chunks@.len(),
    {
        let n = g.chunks.len();
        let mut links: usize = 0;
        for i in 0..n
            invariant
                n == g.chunks@.len(),
        {
            links = links.saturating_add(g.chunks[i].1.successors.len());
        }
        Size {
            num_chunks: n,
            num_links: links,
            num_starts: g.start_chunks.len(),
            num_ends: g.end_chunks.len(),
        }
    }

    /// Whether this size is strictly smaller: some component shrank and none
    /// grew.
    pub fn strictly_smaller_than(&self, other: &Size) -> (r: bool)
        ensures
            r == ((self.num_chunks < other.num_chunks || self.num_links < other.num_links
                || self.num_starts < other.num_starts || self.num_ends < other.num_ends)
                && self.num_chunks <= other.num_chunks && self.num_links <= other.num_links
                && self.num_starts <= other.num_starts && self.num_ends <= other.num_ends),
    {
        let any_less = self.num_chunks < other.num_chunks || self.num_links < other.num_links
            || self.num_starts < other.num_starts || self.num_ends < other.num_ends;
        let none_greater = self.num_chunks <= other.num_chunks && self.num_links
            <= other.num_links && self.num_starts <= other.num_starts && self.num_ends
            <= other.num_ends;
        any_less && none_greater
    }
}

/// Chunks of the new graph are chunks of the old one, with everything but the
/// distance bounds unchanged.
pub open spec fn chunks_from(new: Seq<(ChunkId, Chunk)>, old: Seq<(ChunkId, Chunk)>) -> bool {
    forall|i: int|
        0 <= i < new.len() ==> exists|j: int|
            0 <= j < old.len() && (#[trigger] new[i]).0 == (#[trigger] old[j]).0 && new[i].1.successors
                == old[j].1.successors && new[i].1.false_chunks == old[j].1.false_chunks
                && new[i].1.per_part_length == old[j].1.per_part_length && new[i].1.total_length
                == old[j].1.total_length && new[i].1.is_start == old[j].1.is_start
                && new[i].1.is_end == old[j].1.is_end && new[i].1.duffer == old[j].1.duffer
}

/// Remove every chunk that cannot sit inside a composition of at most
/// `max_length` rows, going by the current distance bounds.
pub fn prune_by_length(g: Graph, max_length: usize) -> (r: Graph)
    requires
        g.wf(),
    ensures
        r.wf(),
        r.num_parts == g.num_parts,
        r.chunks@.len() <= g.chunks@.len(),
        r.start_chunks@ == g.start_chunks@,
        r.end_chunks@ == g.end_chunks@,
        chunks_from(r.chunks@, g.chunks@),
        g.self_false_included() ==> r.self_false_included(),
        forall|i: int|
            0 <= i < r.chunks@.len() ==> (#[trigger] r.chunks@[i]).1.lb_distance_from_rounds
                + r.chunks@[i].1.total_length + r.chunks@[i].1.lb_distance_to_rounds <= max_length,
{
    let ghost old_g = g;
    let Graph { chunks, start_chunks, end_chunks, num_parts } = g;
    let ghost chunks0 = chunks@;
    let n = chunks.len();
    let mut kept: Vec<(ChunkId, Chunk)> = Vec::new();
    let mut rest = chunks;
    let mut i: usize = 0;
    while i < n
        invariant
            old_g.wf(),
            chunks0 == old_g.chunks@,
            n == chunks0.len(),
            i <= n,
            rest@.len() == n - i,
            forall|j: int| 0 <= j < n - i ==> rest@[j] == chunks0[i + j],
            kept@.len() <= i,
            forall|a: int|
                0 <= a < kept@.len() ==> exists|j: int|
                    0 <= j < i && (#[trigger] kept@[a]) == chunks0[j],
            forall|a: int, b: int|
                0 <= a < b < kept@.len() ==> (#[trigger] kept@[a]).0.key() != (
                #[trigger] kept@[b]).0.key(),
            forall|a: int|
                0 <= a < kept@.len() ==> (#[trigger] kept@[a]).1.lb_distance_from_rounds
                    + kept@[a].1.total_length + kept@[a].1.lb_distance_to_rounds <= max_length,
            old_g.self_false_included() ==> forall|a: int|
                0 <= a < kept@.len() ==> key_in_false_list(
                    (#[trigger] kept@[a]).1.false_chunks@,
                    kept@[a].0.key(),
                ),
        decreases n - i,
    {
        let (id, c) = rest.remove(0);
        let fits = c.lb_distance_from_rounds <= max_length && c.total_length <= max_length
            - c.lb_distance_from_rounds && c.lb_distance_to_rounds <= max_length
            - c.lb_distance_from_rounds - c.total_length;
        if fits {
            proof {
                assert((id, c) == chunks0[i as int]);
                if old_g.self_false_included() {
                    assert(key_in_false_list(
                        old_g.chunks@[i as int].1.false_chunks@,
                        old_g.chunks@[i as int].0.key(),
                    ));
                }
            }
            let ghost prev = kept@;
            kept.push((id, c));
            proof {
                assert forall|a: int, b: int|
                    0 <= a < b < kept@.len() implies (#[trigger] kept@[a]).0.key() != (
                #[trigger] kept@[b]).0.key() by {
                    if b == kept@.len() - 1 {
                        let j = choose|j: int|
                            0 <= j < i && (#[trigger] kept@[a]) == chunks0[j];
                        assert(chunks0[j].0.key() != chunks0[i as int].0.key());
                    }
                }
            }
        }
        i += 1;
    }
    let r = Graph { chunks: kept, start_chunks, end_chunks, num_parts };
    proof {
        assert(r.wf()) by {
            assert(r.keys_unique());
            assert(r.ids_wf()) by {
                assert forall|a: int|
                    0 <= a < r.chunks@.len() implies (#[trigger] r.chunks@[a]).0.wf() by {
                    let j = choose|j: int| 0 <= j < i && (#[trigger] r.chunks@[a]) == chunks0[j];
                    assert(old_g.chunks@[j].0.wf());
                }
                assert forall|a: int, si: int|
                    0 <= a < r.chunks@.len() && 0 <= si < r.chunks@[a].1.successors@.len() implies (
                #[trigger] r.chunks@[a].1.successors@[si]).rotation < r.num_parts
                    && r.chunks@[a].1.successors@[si].id.wf() by {
                    let j = choose|j: int| 0 <= j < i && (#[trigger] r.chunks@[a]) == chunks0[j];
                    assert(old_g.chunks@[j].1.successors@[si].rotation < old_g.num_parts);
                }
                assert forall|a: int, pi: int|
                    0 <= a < r.chunks@.len() && 0 <= pi
                        < r.chunks@[a].1.predecessors@.len() implies (
                #[trigger] r.chunks@[a].1.predecessors@[pi]).rotation < r.num_parts by {
                    let j = choose|j: int| 0 <= j < i && (#[trigger] r.chunks@[a]) == chunks0[j];
                    assert(old_g.chunks@[j].1.predecessors@[pi].rotation < old_g.num_parts);
                }
            }
            assert(r.linked()) by {
                assert forall|ci: int, si: int, ti: int|
                    0 <= ci < r.chunks@.len() && 0 <= si < r.chunks@[ci].1.successors@.len() && 0
                        <= ti < r.chunks@.len() && (#[trigger] r.chunks@[ti]).0.key() == (
                #[trigger] r.chunks@[ci].1.successors@[si]).id.key() implies has_pred_entry(
                    r.chunks@[ti].1.predecessors@,
                    r.chunks@[ci].0.key(),
                    r.chunks@[ci].1.successors@[si].source_idx as int,
                    spec_inv_rotation(
                        r.num_parts as int,
                        r.chunks@[ci].1.successors@[si].rotation as int,
                    ),
                ) by {
                    let jc = choose|j: int| 0 <= j < i && (#[trigger] r.chunks@[ci]) == chunks0[j];
                    let jt = choose|j: int| 0 <= j < i && (#[trigger] r.chunks@[ti]) == chunks0[j];
                    assert(old_g.chunks@[jt].0.key()
                        == old_g.chunks@[jc].1.successors@[si].id.key());
                    assert(has_pred_entry(
                        old_g.chunks@[jt].1.predecessors@,
                        old_g.chunks@[jc].0.key(),
                        old_g.chunks@[jc].1.successors@[si].source_idx as int,
                        spec_inv_rotation(
                            old_g.num_parts as int,
                            old_g.chunks@[jc].1.successors@[si].rotation as int,
                        ),
                    ));
                }
            }
        }
        if old_g.self_false_included() {
            assert(r.self_false_included());
        }
        assert(chunks_from(r.chunks@, old_g.chunks@)) by {
            assert forall|a: int| 0 <= a < r.chunks@.len() implies exists|j: int|
                0 <= j < old_g.chunks@.len() && (#[trigger] r.chunks@[a]).0 == (
            #[trigger] old_g.chunks@[j]).0 && r.chunks@[a].1.successors
                == old_g.chunks@[j].1.successors && r.chunks@[a].1.false_chunks
                == old_g.chunks@[j].1.false_chunks && r.chunks@[a].1.per_part_length
                == old_g.chunks@[j].1.per_part_length && r.chunks@[a].1.total_length
                == old_g.chunks@[j].1.total_length && r.chunks@[a].1.is_start
                == old_g.chunks@[j].1.is_start && r.chunks@[a].1.is_end
                == old_g.chunks@[j].1.is_end && r.chunks@[a].1.duffer
                == old_g.chunks@[j].1.duffer by {
                let j = choose|j: int| 0 <= j < i && (#[trigger] r.chunks@[a]) == chunks0[j];
                assert(r.chunks@[a].0 == old_g.chunks@[j].0);
            }
        }
    }
    r
}

} // verus!

verus! {

/// Every chunk fits a composition of at most `max_length` rows, going by its
/// distance bounds.
pub open spec fn within_length(g: &Graph, max_length: int) -> bool {
    forall|i: int|
        0 <= i < g.chunks@.len() ==> (#[trigger] g.chunks@[i]).1.lb_distance_from_rounds
            + g.chunks@[i].1.total_length + g.chunks@[i].1.lb_distance_to_rounds <= max_length
}

/// Chunks of the new graph are chunks of the old one by id, length and flags
/// (reference lists may have been filtered).
pub open spec fn chunks_from_weak(new: Seq<(ChunkId, Chunk)>, old: Seq<(ChunkId, Chunk)>) -> bool {
    forall|i: int|
        0 <= i < new.len() ==> exists|j: int|
            0 <= j < old.len() && (#[trigger] new[i]).0 == (#[trigger] old[j]).0
                && new[i].1.per_part_length == old[j].1.per_part_length && new[i].1.total_length
                == old[j].1.total_length && new[i].1.is_start == old[j].1.is_start
                && new[i].1.is_end == old[j].1.is_end && new[i].1.duffer == old[j].1.duffer
}

/// Rewrite the distance bounds of every chunk, leaving everything else alone.
#[verifier::loop_isolation(false)]
#[verifier::rlimit(60)]
fn set_distances(g: Graph, dist_from: &Vec<usize>, dist_to: &Vec<usize>) -> (r: Graph)
    requires
        g.wf(),
        dist_from@.len() == g.chunks@.len(),
        dist_to@.len() == g.chunks@.len(),
    ensures
        r.wf(),
        r.num_parts == g.num_parts,
        r.start_chunks@ == g.start_chunks@,
        r.end_chunks@ == g.end_chunks@,
        r.chunks@.len() == g.chunks@.len(),
        g.self_false_included() ==> r.self_false_included(),
        forall|i: int|
            0 <= i < r.chunks@.len() ==> (#[trigger] r.chunks@[i]).1.lb_distance_from_rounds
                == dist_from@[i] && r.chunks@[i].1.lb_distance_to_rounds == dist_to@[i],
{
    let ghost old_g = g;
    let Graph { chunks, start_chunks, end_chunks, num_parts } = g;
    let ghost chunks0 = chunks@;
    let n = chunks.len();
    let mut out: Vec<(ChunkId, Chunk)> = Vec::new();
    let mut rest = chunks;
    let mut i: usize = 0;
    while i < n
        invariant
            old_g.wf(),
            chunks0 == old_g.chunks@,
            n == chunks0.len(),
            dist_from@.len() == n,
            dist_to@.len() == n,
            i <= n,
            rest@.len() == n - i,
            forall|j: int| 0 <= j < n - i ==> rest@[j] == chunks0[i + j],
            out@.len() == i,
            forall|a: int|
                0 <= a < i ==> (#[trigger] out@[a]).0 == chunks0[a].0 && out@[a].1.successors
                    == chunks0[a].1.successors && out@[a].1.predecessors
                    == chunks0[a].1.predecessors && out@[a].1.false_chunks
                    == chunks0[a].1.false_chunks && out@[a].1.per_part_length
                    == chunks0[a].1.per_part_length && out@[a].1.total_length
                    == chunks0[a].1.total_length && out@[a].1.is_start == chunks0[a].1.is_start
                    && out@[a].1.is_end == chunks0[a].1.is_end && out@[a].1.duffer
                    == chunks0[a].1.duffer && out@[a].1.lb_distance_from_rounds == dist_from@[a]
                    && out@[a].1.lb_distance_to_rounds == dist_to@[a],
        decreases n - i,
    {
        let (id, mut c) = rest.remove(0);
        c.lb_distance_from_rounds = dist_from[i];
        c.lb_distance_to_rounds = dist_to[i];
        out.push((id, c));
        i += 1;
    }
    let r = Graph { chunks: out, start_chunks, end_chunks, num_parts };
    proof {
        assert(r.wf()) by {
            assert forall|a: int, b: int|
                0 <= a < b < r.chunks@.len() implies (#[trigger] r.chunks@[a]).0.key() != (
            #[trigger] r.chunks@[b]).0.key() by {
                assert(r.chunks@[a].0 == chunks0[a].0);
                assert(r.chunks@[b].0 == chunks0[b].0);
            }
            assert forall|a: int|
                0 <= a < r.chunks@.len() implies (#[trigger] r.chunks@[a]).0.wf() by {
                assert(r.chunks@[a].0 == chunks0[a].0);
            }
            assert forall|a: int, si: int|
                0 <= a < r.chunks@.len() && 0 <= si < r.chunks@[a].1.successors@.len() implies (
            #[trigger] r.chunks@[a].1.successors@[si]).rotation < r.num_parts
                && r.chunks@[a].1.successors@[si].id.wf() by {
                assert(r.chunks@[a].1.successors == chunks0[a].1.successors);
            }
            assert forall|a: int, pi: int|
                0 <= a < r.chunks@.len() && 0 <= pi < r.chunks@[a].1.predecessors@.len() implies (
            #[trigger] r.chunks@[a].1.predecessors@[pi]).rotation < r.num_parts by {
                assert(r.chunks@[a].1.predecessors == chunks0[a].1.predecessors);
            }
            assert(r.linked()) by {
                assert forall|ci: int, si: int, ti: int|
                    0 <= ci < r.chunks@.len() && 0 <= si < r.chunks@[ci].1.successors@.len() && 0
                        <= ti < r.chunks@.len() && (#[trigger] r.chunks@[ti]).0.key() == (
                #[trigger] r.chunks@[ci].1.successors@[si]).id.key() implies has_pred_entry(
                    r.chunks@[ti].1.predecessors@,
                    r.chunks@[ci].0.key(),
                    r.chunks@[ci].1.successors@[si].source_idx as int,
                    spec_inv_rotation(
                        r.num_parts as int,
                        r.chunks@[ci].1.successors@[si].rotation as int,
                    ),
                ) by {
                    assert(r.chunks@[ci].1.successors == chunks0[ci].1.successors);
                    assert(r.chunks@[ti].0 == chunks0[ti].0);
                    assert(old_g.chunks@[ti].0.key()
                        == old_g.chunks@[ci].1.successors@[si].id.key());
                    assert(has_pred_entry(
                        old_g.chunks@[ti].1.predecessors@,
                        old_g.chunks@[ci].0.key(),
                        old_g.chunks@[ci].1.successors@[si].source_idx as int,
                        spec_inv_rotation(
                            old_g.num_parts as int,
                            old_g.chunks@[ci].1.successors@[si].rotation as int,
                        ),
                    ));
                    assert(r.chunks@[ti].1.predecessors == chunks0[ti].1.predecessors);
                    assert(r.chunks@[ci].0 == chunks0[ci].0);
                }
            }
        }
        if old_g.self_false_included() {
            assert forall|a: int| 0 <= a < r.chunks@.len() implies #[trigger] key_in_false_list(
                r.chunks@[a].1.false_chunks@,
                r.chunks@[a].0.key(),
            ) by {
                assert(r.chunks@[a].1.false_chunks == chunks0[a].1.false_chunks);
                assert(r.chunks@[a].0 == chunks0[a].0);
                assert(key_in_false_list(
                    old_g.chunks@[a].1.false_chunks@,
                    old_g.chunks@[a].0.key(),
                ));
            }
        }
    }
    r
}

/// Recompute both distance bounds by relaxation over the links, then prune
/// every chunk that cannot sit inside a composition of `max_length` rows.
pub fn compute_distances(g: Graph, max_length: usize) -> (r: Graph)
    requires
        g.wf(),
    ensures
        r.wf(),
        r.num_parts == g.num_parts,
        r.chunks@.len() <= g.chunks@.len(),
        r.start_chunks@ == g.start_chunks@,
        r.end_chunks@ == g.end_chunks@,
        g.self_false_included() ==> r.self_false_included(),
        within_length(&r, max_length as int),
{
    let n = g.chunks.len();
    let mut dist_from: Vec<usize> = Vec::new();
    let mut dist_to: Vec<usize> = Vec::new();
    for i in 0..n
        invariant
            g.wf(),
            n == g.chunks@.len(),
            dist_from@.len() == i,
            dist_to@.len() == i,
    {
        dist_from.push(
            if g.chunks[i].1.is_start {
                0
            } else {
                usize::MAX
            },
        );
        dist_to.push(
            if g.chunks[i].1.is_end {
                0
            } else {
                usize::MAX
            },
        );
    }
    // Relax every link `n` times in each direction.
    let mut round: usize = 0;
    while round < n
        invariant
            g.wf(),
            n == g.chunks@.len(),
            dist_from@.len() == n,
            dist_to@.len() == n,
            round <= n,
        decreases n - round,
    {
        let mut ci: usize = 0;
        while ci < n
            invariant
                g.wf(),
                n == g.chunks@.len(),
                dist_from@.len() == n,
                dist_to@.len() == n,
                ci <= n,
            decreases n - ci,
        {
            let num_succs = g.chunks[ci].1.successors.len();
            let mut si: usize = 0;
            while si < num_succs
                invariant
                    g.wf(),
                    n == g.chunks@.len(),
                    dist_from@.len() == n,
                    dist_to@.len() == n,
                    ci < n,
                    num_succs == g.chunks@[ci as int].1.successors@.len(),
                    si <= num_succs,
                decreases num_succs - si,
            {
                match g.find_chunk(&g.chunks[ci].1.successors[si].id) {
                    Some(ti) => {
                        // Forward: distance to the target through this chunk.
                        let cand = dist_from[ci].saturating_add(g.chunks[ci].1.total_length);
                        if cand < dist_from[ti] {
                            dist_from.set(ti, cand);
                        }
                        // Backward: distance from this chunk's end through the
                        // target.
                        let cand2 = dist_to[ti].saturating_add(g.chunks[ti].1.total_length);
                        if cand2 < dist_to[ci] {
                            dist_to.set(ci, cand2);
                        }
                    },
                    None => {},
                }
                si += 1;
            }
            ci += 1;
        }
        round += 1;
    }
    let with_distances = set_distances(g, &dist_from, &dist_to);
    prune_by_length(with_distances, max_length)
}

/// Drop every reference to a chunk that is no longer in the graph: successor
/// links and falseness entries keep only ids the graph still holds, and the
/// predecessor lists are rebuilt to mirror the surviving links.
#[verifier::loop_isolation(false)]
#[verifier::rlimit(100)]
pub fn strip_refs(g: Graph) -> (r: Graph)
    requires
        g.wf(),
    ensures
        r.wf(),
        r.num_parts == g.num_parts,
        r.chunks@.len() == g.chunks@.len(),
        r.start_chunks@ == g.start_chunks@,
        r.end_chunks@ == g.end_chunks@,
        chunks_from_weak(r.chunks@, g.chunks@),
        g.self_false_included() ==> r.self_false_included(),
        forall|m: int| within_length(&g, m) ==> within_length(&r, m),
{
    let ghost old_g = g;
    let num_parts_val = g.num_parts;
    let n = g.chunks.len();
    // The surviving keys, for the membership tests.
    let mut keys: Vec<ChunkId> = Vec::new();
    for i in 0..n
        invariant
            g.wf(),
            n == g.chunks@.len(),
            keys@.len() == i,
            forall|j: int| 0 <= j < i ==> (#[trigger] keys@[j]).key() == g.chunks@[j].0.key(),
    {
        keys.push(g.chunks[i].0.duplicate());
    }
    let Graph { chunks, start_chunks, end_chunks, num_parts } = g;
    let ghost chunks0 = chunks@;
    let mut out: Vec<(ChunkId, Chunk)> = Vec::new();
    let mut rest = chunks;
    let mut i: usize = 0;
    while i < n
        invariant
            old_g.wf(),
            chunks0 == old_g.chunks@,
            n == chunks0.len(),
            keys@.len() == n,
            forall|j: int| 0 <= j < n ==> (#[trigger] keys@[j]).key() == chunks0[j].0.key(),
            i <= n,
            rest@.len() == n - i,
            forall|j: int| 0 <= j < n - i ==> rest@[j] == chunks0[i + j],
            out@.len() == i,
            forall|a: int|
                0 <= a < i ==> (#[trigger] out@[a]).0 == chunks0[a].0 && out@[a].1.per_part_length
                    == chunks0[a].1.per_part_length && out@[a].1.total_length
                    == chunks0[a].1.total_length && out@[a].1.is_start == chunks0[a].1.is_start
                    && out@[a].1.is_end == chunks0[a].1.is_end && out@[a].1.duffer
                    == chunks0[a].1.duffer && out@[a].1.lb_distance_from_rounds
                    == chunks0[a].1.lb_distance_from_rounds && out@[a].1.lb_distance_to_rounds
                    == chunks0[a].1.lb_distance_to_rounds,
            forall|a: int, si: int|
                0 <= a < i && 0 <= si < out@[a].1.successors@.len() ==> (
                #[trigger] out@[a].1.successors@[si]).rotation < num_parts_val
                    && out@[a].1.successors@[si].id.wf(),
            old_g.self_false_included() ==> forall|a: int|
                0 <= a < i ==> key_in_false_list(
                    (#[trigger] out@[a]).1.false_chunks@,
                    out@[a].0.key(),
                ),
        decreases n - i,
    {
        let (id, mut c) = rest.remove(0);
        proof {
            assert((id, c) == chunks0[i as int]);
        }
        // Keep only successor links whose target is still present.
        let old_succs = c.successors;
        let ns = old_succs.len();
        let mut new_succs: Vec<Link> = Vec::new();
        let mut si: usize = 0;
        while si < ns
            invariant
                old_g.wf(),
                chunks0 == old_g.chunks@,
                n == chunks0.len(),
                i < n,
                old_succs@ == chunks0[i as int].1.successors@,
                ns == old_succs@.len(),
                si <= ns,
                keys@.len() == n,
                forall|j: int| 0 <= j < n ==> (#[trigger] keys@[j]).key() == chunks0[j].0.key(),
                forall|a: int|
                    0 <= a < new_succs@.len() ==> (#[trigger] new_succs@[a]).rotation
                        < num_parts_val && new_succs@[a].id.wf(),
            decreases ns - si,
        {
            let mut present = false;
            let mut t: usize = 0;
            while t < n
                invariant
                    keys@.len() == n,
                    t <= n,
                    si < ns,
                    ns == old_succs@.len(),
                decreases n - t,
            {
                if keys[t].same(&old_succs[si].id) {
                    present = true;
                }
                t += 1;
            }
            if present {
                let l = &old_succs[si];
                proof {
                    assert(old_succs@[si as int] == old_g.chunks@[i as int].1.successors@[si as int]);
                    assert(old_g.chunks@[i as int].1.successors@[si as int].rotation
                        < old_g.num_parts);
                }
                new_succs.push(
                    Link { id: l.id.duplicate(), source_idx: l.source_idx, rotation: l.rotation },
                );
            }
            si += 1;
        }
        // Keep only falseness entries whose chunk is still present, always
        // keeping the chunk's own entry.
        let old_false = c.false_chunks;
        let nf = old_false.len();
        let mut new_false: Vec<ChunkId> = Vec::new();
        let mut fi: usize = 0;
        while fi < nf
            invariant
                n == chunks0.len(),
                i < n,
                keys@.len() == n,
                forall|j: int| 0 <= j < n ==> (#[trigger] keys@[j]).key() == chunks0[j].0.key(),
                old_false@ == chunks0[i as int].1.false_chunks@,
                nf == old_false@.len(),
                fi <= nf,
                forall|a: int|
                    0 <= a < new_false@.len() ==> exists|f2: int|
                        0 <= f2 < nf && (#[trigger] new_false@[a]).key() == old_false@[f2].key(),
                forall|f2: int|
                    0 <= f2 < fi && old_false@[f2].key() == chunks0[i as int].0.key()
                        ==> key_in_false_list(new_false@, chunks0[i as int].0.key()),
            decreases nf - fi,
        {
            let mut present = false;
            let mut t: usize = 0;
            while t < n
                invariant
                    keys@.len() == n,
                    forall|j: int|
                        0 <= j < n ==> (#[trigger] keys@[j]).key() == chunks0[j].0.key(),
                    t <= n,
                    fi < nf,
                    nf == old_false@.len(),
                    present ==> exists|j: int|
                        0 <= j < n && (#[trigger] chunks0[j]).0.key() == old_false@[fi as int].key(),
                decreases n - t,
            {
                if keys[t].same(&old_false[fi].duplicate()) {
                    present = true;
                }
                t += 1;
            }
            let is_own = old_false[fi].same(&id);
            proof {
                assert(id == chunks0[i as int].0);
            }
            if present || is_own {
                let ghost prev = new_false@;
                new_false.push(old_false[fi].duplicate());
                proof {
                    assert(new_false@[new_false@.len() - 1].key() == old_false@[fi as int].key());
                    assert forall|a: int|
                        0 <= a < new_false@.len() implies exists|f2: int|
                        0 <= f2 < nf && (#[trigger] new_false@[a]).key()
                            == old_false@[f2].key() by {
                        if a < new_false@.len() - 1 {
                            assert(new_false@[a] == prev[a]);
                        }
                    }
                    if is_own {
                        assert(old_false@[fi as int].key() == chunks0[i as int].0.key());
                        assert(new_false@[new_false@.len() - 1].key()
                            == chunks0[i as int].0.key());
                        assert(key_in_false_list(new_false@, chunks0[i as int].0.key()));
                    }
                    assert forall|f2: int|
                        0 <= f2 < fi + 1 && old_false@[f2].key()
                            == chunks0[i as int].0.key() implies key_in_false_list(
                        new_false@,
                        chunks0[i as int].0.key(),
                    ) by {
                        if f2 < fi {
                            let w = choose|w: int|
                                0 <= w < prev.len() && (#[trigger] prev[w]).key()
                                    == chunks0[i as int].0.key();
                            assert(new_false@[w] == prev[w]);
                        } else {
                            assert(old_false@[fi as int].key() == chunks0[i as int].0.key());
                            assert(new_false@[new_false@.len() - 1].key()
                                == chunks0[i as int].0.key());
                        }
                    }
                }
            } else {
                proof {
                    assert forall|f2: int|
                        0 <= f2 < fi + 1 && old_false@[f2].key()
                            == chunks0[i as int].0.key() implies key_in_false_list(
                        new_false@,
                        chunks0[i as int].0.key(),
                    ) by {
                        if f2 == fi {
                            assert(is_own == (old_false@[fi as int].key()
                                == chunks0[i as int].0.key()));
                        }
                    }
                }
            }
            fi += 1;
        }
        let ghost ns_snap = new_succs@;
        c.successors = new_succs;
        c.false_chunks = new_false;
        c.predecessors = Vec::new();
        out.push((id, c));
        proof {
            assert(out@[out@.len() - 1].1.successors@ == ns_snap);
            if old_g.self_false_included() {
                assert(key_in_false_list(
                    old_g.chunks@[i as int].1.false_chunks@,
                    old_g.chunks@[i as int].0.key(),
                ));
                let w = choose|w: int|
                    0 <= w < old_false@.len() && (#[trigger] old_false@[w]).key()
                        == chunks0[i as int].0.key();
                assert(key_in_false_list(out@[i as int].1.false_chunks@, out@[i as int].0.key()));
            }
            assert forall|a: int, si2: int|
                0 <= a < out@.len() && 0 <= si2 < out@[a].1.successors@.len() implies (
            #[trigger] out@[a].1.successors@[si2]).rotation < num_parts_val
                && out@[a].1.successors@[si2].id.wf() by {
                if a == out@.len() - 1 {
                    assert(out@[a].1.successors@[si2] == ns_snap[si2]);
                }
            }
        }
        i += 1;
    }
    // Rebuild the predecessor lists to mirror the surviving links.
    let ghost out0 = out@;
    let wired = crate::graph::wire_predecessors(out, num_parts_val);
    let r = Graph { chunks: wired, start_chunks, end_chunks, num_parts: num_parts_val };
    proof {
        assert forall|a: int, b: int|
            0 <= a < b < r.chunks@.len() implies (#[trigger] r.chunks@[a]).0.key() != (
        #[trigger] r.chunks@[b]).0.key() by {
            assert(r.chunks@[a].0 == out0[a].0);
            assert(r.chunks@[b].0 == out0[b].0);
            assert(out0[a].0 == chunks0[a].0);
            assert(out0[b].0 == chunks0[b].0);
        }
        assert(r.ids_wf()) by {
            assert forall|a: int|
                0 <= a < r.chunks@.len() implies (#[trigger] r.chunks@[a]).0.wf() by {
                assert(r.chunks@[a].0 == out0[a].0);
                assert(out0[a].0 == chunks0[a].0);
            }
            assert forall|a: int, si: int|
                0 <= a < r.chunks@.len() && 0 <= si < r.chunks@[a].1.successors@.len() implies (
            #[trigger] r.chunks@[a].1.successors@[si]).rotation < r.num_parts
                && r.chunks@[a].1.successors@[si].id.wf() by {
                assert(r.chunks@[a].1.successors == out0[a].1.successors);
            }
        }
        assert(r.linked());
        if old_g.self_false_included() {
            assert forall|a: int| 0 <= a < r.chunks@.len() implies #[trigger] key_in_false_list(
                r.chunks@[a].1.false_chunks@,
                r.chunks@[a].0.key(),
            ) by {
                assert(r.chunks@[a].1.false_chunks == out0[a].1.false_chunks);
                assert(r.chunks@[a].0 == out0[a].0);
                assert(key_in_false_list(out0[a].1.false_chunks@, out0[a].0.key()));
            }
        }
        assert forall|m: int| within_length(&old_g, m) implies within_length(&r, m) by {
            assert forall|a: int|
                0 <= a < r.chunks@.len() implies (#[trigger] r.chunks@[a]).1.lb_distance_from_rounds
                + r.chunks@[a].1.total_length + r.chunks@[a].1.lb_distance_to_rounds <= m by {
                assert(r.chunks@[a].1.lb_distance_from_rounds
                    == out0[a].1.lb_distance_from_rounds);
                assert(r.chunks@[a].1.lb_distance_to_rounds == out0[a].1.lb_distance_to_rounds);
                assert(r.chunks@[a].1.total_length == out0[a].1.total_length);
                assert(out0[a].1.lb_distance_from_rounds
                    == chunks0[a].1.lb_distance_from_rounds);
                assert(old_g.chunks@[a].1.lb_distance_from_rounds
                    + old_g.chunks@[a].1.total_length + old_g.chunks@[a].1.lb_distance_to_rounds
                    <= m);
            }
        }
        assert(chunks_from_weak(r.chunks@, old_g.chunks@)) by {
            assert forall|a: int| 0 <= a < r.chunks@.len() implies exists|j: int|
                0 <= j < old_g.chunks@.len() && (#[trigger] r.chunks@[a]).0 == (
            #[trigger] old_g.chunks@[j]).0 && r.chunks@[a].1.per_part_length
                == old_g.chunks@[j].1.per_part_length && r.chunks@[a].1.total_length
                == old_g.chunks@[j].1.total_length && r.chunks@[a].1.is_start
                == old_g.chunks@[j].1.is_start && r.chunks@[a].1.is_end
                == old_g.chunks@[j].1.is_end && r.chunks@[a].1.duffer
                == old_g.chunks@[j].1.duffer by {
                assert(r.chunks@[a].0 == out0[a].0 && out0[a].0 == chunks0[a].0);
                assert(r.chunks@[a].1.per_part_length == out0[a].1.per_part_length);
                assert(r.chunks@[a].1.total_length == out0[a].1.total_length);
                assert(r.chunks@[a].1.is_start == out0[a].1.is_start);
                assert(r.chunks@[a].1.is_end == out0[a].1.is_end);
                assert(r.chunks@[a].1.duffer == out0[a].1.duffer);
            }
        }
    }
    r
}

/// One optimisation pass.
pub enum Pass {
    /// Drop references to chunks no longer in the graph.
    StripRefs,
    /// Recompute the distance bounds and prune chunks that cannot fit.
    ComputeDistances { max_length: usize },
}

impl Pass {
    /// Apply this pass.
    pub fn run(&self, g: Graph) -> (r: Graph)
        requires
            g.wf(),
        ensures
            r.wf(),
            r.num_parts == g.num_parts,
            r.chunks@.len() <= g.chunks@.len(),
            r.start_chunks@ == g.start_chunks@,
            r.end_chunks@ == g.end_chunks@,
            g.self_false_included() ==> r.self_false_included(),
            self matches Pass::ComputeDistances { max_length } ==> within_length(
                &r,
                max_length as int,
            ),
            self is StripRefs ==> forall|m: int| within_length(&g, m) ==> within_length(&r, m),
    {
        match self {
            Pass::StripRefs => strip_refs(g),
            Pass::ComputeDistances { max_length } => compute_distances(g, *max_length),
        }
    }
}

/// The default pass list: strip dangling references, then recompute and
/// enforce the distance bounds.
pub fn default_passes(max_length: usize) -> (r: Vec<Pass>)
    ensures
        r@.len() == 2,
        r@[0] is StripRefs,
        r@[1] == (Pass::ComputeDistances { max_length }),
        passes_pin_length(r@, max_length as int),
{
    let mut passes: Vec<Pass> = Vec::new();
    passes.push(Pass::StripRefs);
    passes.push(Pass::ComputeDistances { max_length });
    proof {
        assert(passes_pin_length(passes@, max_length as int)) by {
            assert(pass_bound(passes@[1]) == Some(max_length as int) && (forall|j: int|
                1 < j < passes@.len() ==> (#[trigger] passes@[j]) is StripRefs));
        }
    }
    passes
}

/// The length bound a distance pass enforces, if the pass is one.
pub open spec fn pass_bound(p: Pass) -> Option<int> {
    match p {
        Pass::ComputeDistances { max_length } => Some(max_length as int),
        _ => None,
    }
}

/// Whether a pass list pins the distance bound: it holds a distance pass for
/// `max_length`, followed only by reference-stripping.
pub open spec fn passes_pin_length(passes: Seq<Pass>, max_length: int) -> bool {
    exists|k: int|
        0 <= k < passes.len() && #[trigger] pass_bound(passes[k]) == Some(max_length) && (forall|
            j: int,
        | k < j < passes.len() ==> (#[trigger] passes[j]) is StripRefs)
}

/// Run every pass once, in order.  If the list holds a distance pass followed
/// only by reference stripping, every surviving chunk fits the length bound.
pub fn run_passes(g: Graph, passes: &Vec<Pass>) -> (r: Graph)
    requires
        g.wf(),
    ensures
        r.wf(),
        r.num_parts == g.num_parts,
        r.chunks@.len() <= g.chunks@.len(),
        r.start_chunks@ == g.start_chunks@,
        r.end_chunks@ == g.end_chunks@,
        g.self_false_included() ==> r.self_false_included(),
        forall|m: int| passes_pin_length(passes@, m) ==> within_length(&r, m),
{
    let ghost old_g = g;
    let mut cur = g;
    let n = passes.len();
    let mut i: usize = 0;
    while i < n
        invariant
            old_g.wf(),
            n == passes@.len(),
            i <= n,
            cur.wf(),
            cur.num_parts == old_g.num_parts,
            cur.chunks@.len() <= old_g.chunks@.len(),
            cur.start_chunks@ == old_g.start_chunks@,
            cur.end_chunks@ == old_g.end_chunks@,
            old_g.self_false_included() ==> cur.self_false_included(),
            forall|k: int|
                0 <= k < i && (forall|j: int|
                    k < j < i ==> (#[trigger] passes@[j]) is StripRefs) ==> (match #[trigger] pass_bound(
                    passes@[k],
                ) {
                    Some(m) => within_length(&cur, m),
                    None => true,
                }),
        decreases n - i,
    {
        let ghost prev = cur;
        cur = passes[i].run(cur);
        proof {
            assert forall|k: int|
                0 <= k < i + 1 && (forall|j: int|
                    k < j < i + 1 ==> (#[trigger] passes@[j]) is StripRefs) implies (
            match #[trigger] pass_bound(passes@[k]) {
                Some(m) => within_length(&cur, m),
                None => true,
            }) by {
                if k == i as int {
                } else {
                    match pass_bound(passes@[k]) {
                        Some(m) => {
                            assert(within_length(&prev, m));
                            assert(passes@[i as int] is StripRefs);
                        },
                        None => {},
                    }
                }
            }
        }
        i += 1;
    }
    proof {
        assert forall|m: int| passes_pin_length(passes@, m) implies within_length(&cur, m) by {
            let k = choose|k: int|
                0 <= k < passes@.len() && #[trigger] pass_bound(passes@[k]) == Some(m) && (forall|
                    j: int,
                | k < j < passes@.len() ==> (#[trigger] passes@[j]) is StripRefs);
        }
    }
    cur
}

/// Repeatedly run the passes until the graph stops getting strictly smaller,
/// or the iteration limit is reached.
#[verifier::loop_isolation(false)]
pub fn optimise_with_iter_limit(g: Graph, passes: &Vec<Pass>, limit: usize) -> (r: Graph)
    requires
        g.wf(),
        passes@.len() >= 1,
        limit >= 1,
    ensures
        r.wf(),
        r.num_parts == g.num_parts,
        r.chunks@.len() <= g.chunks@.len(),
        g.self_false_included() ==> r.self_false_included(),
        forall|m: int| passes_pin_length(passes@, m) ==> within_length(&r, m),
{
    let ghost old_g = g;
    let mut cur = run_passes(g, passes);
    let mut last_size = Size::of_graph(&cur);
    let mut iter: usize = 1;
    while iter < limit
        invariant
            old_g.wf(),
            cur.wf(),
            cur.num_parts == old_g.num_parts,
            cur.chunks@.len() <= old_g.chunks@.len(),
            old_g.self_false_included() ==> cur.self_false_included(),
            forall|m: int| passes_pin_length(passes@, m) ==> within_length(&cur, m),
        decreases limit - iter,
    {
        let size_before = last_size;
        cur = run_passes(cur, passes);
        let new_size = Size::of_graph(&cur);
        if !new_size.strictly_smaller_than(&size_before) {
            return cur;
        }
        last_size = new_size;
        iter += 1;
    }
    cur
}

/// Repeatedly run the passes until a fixed point, capped at twenty rounds.
pub fn optimise(g: Graph, passes: &Vec<Pass>) -> (r: Graph)
    requires
        g.wf(),
        passes@.len() >= 1,
    ensures
        r.wf(),
        r.num_parts == g.num_parts,
        r.chunks@.len() <= g.chunks@.len(),
        g.self_false_included() ==> r.self_false_included(),
        forall|m: int| passes_pin_length(passes@, m) ==> within_length(&r, m),
{
    optimise_with_iter_limit(g, passes, 20)
}

} // verus!
