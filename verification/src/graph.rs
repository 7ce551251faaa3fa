//! The chunk graph: every indivisible piece of ringing reachable under a
//! query's constraints, joined by links, annotated with length, music and
//! falseness, ready for optimisation passes and tree search.

use vstd::prelude::*;
use crate::block::seq_compose;
use crate::method::row_pow;
use crate::music::{Breakdown, MusicType, Mask};
use crate::row::{Row, rounds_seq};

verus! {

/// The most parts a part head is allowed to generate.
pub const MAX_PARTS: usize = 10000;

/// An element of the part-head group, as an index into its list of rows.
pub type Rotation = usize;

/// Identifies a chunk: a canonical course head, the segment it covers, and
/// whether it is a start chunk.
pub struct ChunkId {
    pub course_head: Row,
    pub seg: usize,
    pub is_start: bool,
}

impl ChunkId {
    /// The data that identifies a chunk.
    pub open spec fn key(&self) -> (Seq<usize>, int, bool) {
        (self.course_head@, self.seg as int, self.is_start)
    }

    pub open spec fn wf(&self) -> bool {
        self.course_head.wf()
    }

    pub fn duplicate(&self) -> (r: ChunkId)
        ensures
            r.key() == self.key(),
            r.course_head@ == self.course_head@,
            r.seg == self.seg,
            r.is_start == self.is_start,
    {
        ChunkId { course_head: self.course_head.clone(), seg: self.seg, is_start: self.is_start }
    }

    /// Whether two ids identify the same chunk.
    pub fn same(&self, other: &ChunkId) -> (r: bool)
        ensures
            r == (self.key() == other.key()),
    {
        let r = self.seg == other.seg && self.is_start == other.is_start && self.course_head.eq(
            &other.course_head,
        );
        proof {
            if r {
                assert(self.key() == other.key());
            } else {
                assert(self.key() !== other.key());
            }
        }
        r
    }
}

/// A link between two chunks: the id reached, which of the source segment's
/// links was taken, and the rotation the link applies to the part head.
pub struct Link {
    pub id: ChunkId,
    pub source_idx: usize,
    pub rotation: Rotation,
}

impl Link {
    pub fn new(id: ChunkId, source_idx: usize, rotation: Rotation) -> (r: Link)
        ensures
            r.id == id,
            r.source_idx == source_idx,
            r.rotation == rotation,
    {
        Link { id, source_idx, rotation }
    }
}

/// The rotation that traverses a link backwards.
pub open spec fn spec_inv_rotation(num_parts: int, rotation: int) -> int {
    if rotation == 0 {
        0
    } else {
        num_parts - rotation
    }
}

/// Invert a rotation of the part-head group.
pub fn inv_rotation(num_parts: usize, rotation: Rotation) -> (r: Rotation)
    requires
        rotation < num_parts,
    ensures
        r == spec_inv_rotation(num_parts as int, rotation as int),
        r < num_parts,
{
    if rotation == 0 {
        0
    } else {
        num_parts - rotation
    }
}

/// An indivisible chunk of ringing.
pub struct Chunk {
    pub per_part_length: usize,
    pub total_length: usize,
    pub method_counts: Vec<usize>,
    pub music: Breakdown,
    pub duffer: bool,
    pub is_start: bool,
    pub is_end: bool,
    pub successors: Vec<Link>,
    pub predecessors: Vec<Link>,
    pub false_chunks: Vec<ChunkId>,
    pub required: bool,
    pub lb_distance_from_rounds: usize,
    pub lb_distance_to_rounds: usize,
    pub lb_distance_from_non_duffer: usize,
    pub lb_distance_to_non_duffer: usize,
}

impl Chunk {
    /// A lower bound on the length of a composition passing through this chunk.
    pub fn min_comp_length(&self) -> (r: usize)
        requires
            self.lb_distance_from_rounds + self.total_length + self.lb_distance_to_rounds
                <= usize::MAX,
        ensures
            r == self.lb_distance_from_rounds + self.total_length + self.lb_distance_to_rounds,
    {
        self.lb_distance_from_rounds + self.total_length + self.lb_distance_to_rounds
    }
}

/// Two graphs hold the same chunks, position by position: same ids (by key),
/// the same lengths and flags, and reference lists equal entry by entry at
/// the key level.
pub open spec fn same_chunks(a: Seq<(ChunkId, Chunk)>, b: Seq<(ChunkId, Chunk)>) -> bool {
    &&& a.len() == b.len()
    &&& forall|j: int|
        0 <= j < a.len() ==> (#[trigger] a[j]).0.key() == b[j].0.key() && a[j].1.per_part_length
            == b[j].1.per_part_length && a[j].1.total_length == b[j].1.total_length
            && a[j].1.is_start == b[j].1.is_start && a[j].1.is_end == b[j].1.is_end
            && a[j].1.duffer == b[j].1.duffer && a[j].1.required == b[j].1.required
            && a[j].1.lb_distance_from_rounds == b[j].1.lb_distance_from_rounds
            && a[j].1.lb_distance_to_rounds == b[j].1.lb_distance_to_rounds
            && a[j].1.successors@.len() == b[j].1.successors@.len()
            && a[j].1.false_chunks@.len() == b[j].1.false_chunks@.len()
    &&& forall|j: int, si: int|
        0 <= j < a.len() && 0 <= si < a[j].1.successors@.len() ==> (
        #[trigger] a[j].1.successors@[si]).id.key() == b[j].1.successors@[si].id.key()
            && a[j].1.successors@[si].source_idx == b[j].1.successors@[si].source_idx
            && a[j].1.successors@[si].rotation == b[j].1.successors@[si].rotation
    &&& forall|j: int, f: int|
        0 <= j < a.len() && 0 <= f < a[j].1.false_chunks@.len() ==> (
        #[trigger] a[j].1.false_chunks@[f]).key() == b[j].1.false_chunks@[f].key()
}

/// A chunk id with the given key occurs in a falseness list.
pub open spec fn key_in_false_list(fcs: Seq<ChunkId>, key: (Seq<usize>, int, bool)) -> bool {
    exists|f: int| 0 <= f < fcs.len() && (#[trigger] fcs[f]).key() == key
}

/// There is a predecessor entry matching a forward link.
pub open spec fn has_pred_entry(
    preds: Seq<Link>,
    src_key: (Seq<usize>, int, bool),
    source_idx: int,
    rotation: int,
) -> bool {
    exists|pi: int|
        0 <= pi < preds.len() && (#[trigger] preds[pi]).id.key() == src_key
            && preds[pi].source_idx == source_idx && preds[pi].rotation == rotation
}

/// A chunk graph.
pub struct Graph {
    pub chunks: Vec<(ChunkId, Chunk)>,
    pub start_chunks: Vec<(ChunkId, usize, Rotation)>,
    pub end_chunks: Vec<ChunkId>,
    pub num_parts: usize,
}

impl Graph {
    /// No two chunks share an id.
    pub open spec fn keys_unique(&self) -> bool {
        forall|i: int, j: int|
            0 <= i < j < self.chunks@.len() ==> (#[trigger] self.chunks@[i]).0.key() != (
            #[trigger] self.chunks@[j]).0.key()
    }

    /// Ids and rotations are well-formed.
    pub open spec fn ids_wf(&self) -> bool {
        &&& self.num_parts >= 1
        &&& forall|i: int|
            0 <= i < self.chunks@.len() ==> (#[trigger] self.chunks@[i]).0.wf()
        &&& forall|i: int, si: int|
            0 <= i < self.chunks@.len() && 0 <= si < self.chunks@[i].1.successors@.len() ==> (
            #[trigger] self.chunks@[i].1.successors@[si]).rotation < self.num_parts && self.chunks@[i].1.successors@[si].id.wf()
        &&& forall|i: int, pi: int|
            0 <= i < self.chunks@.len() && 0 <= pi < self.chunks@[i].1.predecessors@.len() ==> (
            #[trigger] self.chunks@[i].1.predecessors@[pi]).rotation < self.num_parts
    }

    /// Every forward link to a chunk still in the graph is mirrored by a
    /// predecessor entry with the same index and the inverse rotation.
    pub open spec fn linked(&self) -> bool {
        forall|ci: int, si: int, ti: int|
            0 <= ci < self.chunks@.len() && 0 <= si < self.chunks@[ci].1.successors@.len() && 0
                <= ti < self.chunks@.len() && (#[trigger] self.chunks@[ti]).0.key() == (
            #[trigger] self.chunks@[ci].1.successors@[si]).id.key() ==> has_pred_entry(
                self.chunks@[ti].1.predecessors@,
                self.chunks@[ci].0.key(),
                self.chunks@[ci].1.successors@[si].source_idx as int,
                spec_inv_rotation(
                    self.num_parts as int,
                    self.chunks@[ci].1.successors@[si].rotation as int,
                ),
            )
    }

    /// Every chunk's falseness list contains the chunk itself.
    pub open spec fn self_false_included(&self) -> bool {
        forall|i: int|
            0 <= i < self.chunks@.len() ==> #[trigger] key_in_false_list(
                self.chunks@[i].1.false_chunks@,
                self.chunks@[i].0.key(),
            )
    }

    pub open spec fn wf(&self) -> bool {
        &&& self.keys_unique()
        &&& self.ids_wf()
        &&& self.linked()
    }

    /// Look up a chunk by id.
    pub fn get_chunk(&self, id: &ChunkId) -> (r: Option<&Chunk>)
        ensures
            match r {
                Some(c) => exists|i: int|
                    0 <= i < self.chunks@.len() && (#[trigger] self.chunks@[i]).0.key() == id.key()
                        && c == &self.chunks@[i].1,
                None => forall|i: int|
                    0 <= i < self.chunks@.len() ==> (#[trigger] self.chunks@[i]).0.key()
                        != id.key(),
            },
    {
        let n = self.chunks.len();
        for i in 0..n
            invariant
                n == self.chunks@.len(),
                forall|j: int| 0 <= j < i ==> (#[trigger] self.chunks@[j]).0.key() != id.key(),
        {
            if self.chunks[i].0.same(id) {
                return Some(&self.chunks[i].1);
            }
        }
        None
    }

    /// The index of a chunk with the given id, if it is in the graph.
    pub fn find_chunk(&self, id: &ChunkId) -> (r: Option<usize>)
        ensures
            match r {
                Some(i) => i < self.chunks@.len() && self.chunks@[i as int].0.key() == id.key(),
                None => forall|i: int|
                    0 <= i < self.chunks@.len() ==> (#[trigger] self.chunks@[i]).0.key()
                        != id.key(),
            },
    {
        let n = self.chunks.len();
        for i in 0..n
            invariant
                n == self.chunks@.len(),
                forall|j: int| 0 <= j < i ==> (#[trigger] self.chunks@[j]).0.key() != id.key(),
        {
            if self.chunks[i].0.same(id) {
                return Some(i);
            }
        }
        None
    }

    pub fn num_parts(&self) -> (r: usize)
        ensures
            r == self.num_parts,
    {
        self.num_parts
    }

    /// For each start chunk, a copy of the graph with only that start: the
    /// compositions are partitioned across the copies, and each copy can be
    /// optimised knowing it has a single start.
    pub fn split_by_start_chunk(&self) -> (r: Vec<Graph>)
        requires
            self.wf(),
        ensures
            r@.len() == self.start_chunks@.len(),
            forall|k: int|
                0 <= k < r@.len() ==> (#[trigger] r@[k]).wf() && r@[k].start_chunks@.len() == 1
                    && r@[k].num_parts == self.num_parts,
            forall|k: int|
                0 <= k < r@.len() ==> same_chunks((#[trigger] r@[k]).chunks@, self.chunks@)
                    && r@[k].end_chunks@.len() == self.end_chunks@.len() && (forall|e: int|
                    0 <= e < self.end_chunks@.len() ==> (#[trigger] r@[k].end_chunks@[e]).key()
                        == self.end_chunks@[e].key()),
            forall|k: int|
                0 <= k < r@.len() ==> (#[trigger] r@[k]).start_chunks@[0].0.key()
                    == self.start_chunks@[k].0.key() && r@[k].start_chunks@[0].1
                    == self.start_chunks@[k].1 && r@[k].start_chunks@[0].2
                    == self.start_chunks@[k].2,
    {
        let n = self.start_chunks.len();
        let mut out: Vec<Graph> = Vec::new();
        for k in 0..n
            invariant
                self.wf(),
                n == self.start_chunks@.len(),
                out@.len() == k,
                forall|j: int|
                    0 <= j < k ==> (#[trigger] out@[j]).wf() && out@[j].start_chunks@.len() == 1
                        && out@[j].num_parts == self.num_parts,
                forall|j: int|
                    0 <= j < k ==> same_chunks((#[trigger] out@[j]).chunks@, self.chunks@)
                        && out@[j].end_chunks@.len() == self.end_chunks@.len() && (forall|e: int|
                        0 <= e < self.end_chunks@.len() ==> (
                        #[trigger] out@[j].end_chunks@[e]).key() == self.end_chunks@[e].key()),
                forall|j: int|
                    0 <= j < k ==> (#[trigger] out@[j]).start_chunks@[0].0.key()
                        == self.start_chunks@[j].0.key() && out@[j].start_chunks@[0].1
                        == self.start_chunks@[j].1 && out@[j].start_chunks@[0].2
                        == self.start_chunks@[j].2,
        {
            let mut g = self.duplicate();
            let (id, start_idx, rot) = &self.start_chunks[k];
            let mut starts: Vec<(ChunkId, usize, Rotation)> = Vec::new();
            starts.push((id.duplicate(), *start_idx, *rot));
            g.start_chunks = starts;
            out.push(g);
        }
        out
    }

    /// A structural copy of the graph: the same chunks, starts and ends.
    pub fn duplicate(&self) -> (r: Graph)
        requires
            self.wf(),
        ensures
            r.wf(),
            r.num_parts == self.num_parts,
            r.chunks@.len() == self.chunks@.len(),
            same_chunks(r.chunks@, self.chunks@),
            r.start_chunks@.len() == self.start_chunks@.len(),
            forall|k: int|
                0 <= k < self.start_chunks@.len() ==> (#[trigger] r.start_chunks@[k]).0.key()
                    == self.start_chunks@[k].0.key() && r.start_chunks@[k].1
                    == self.start_chunks@[k].1 && r.start_chunks@[k].2 == self.start_chunks@[k].2,
            r.end_chunks@.len() == self.end_chunks@.len(),
            forall|k: int|
                0 <= k < self.end_chunks@.len() ==> (#[trigger] r.end_chunks@[k]).key()
                    == self.end_chunks@[k].key(),
    {
        let n = self.chunks.len();
        let mut chunks: Vec<(ChunkId, Chunk)> = Vec::new();
        let mut i: usize = 0;
        while i < n
            invariant
                self.wf(),
                n == self.chunks@.len(),
                i <= n,
                chunks@.len() == i,
                forall|j: int|
                    0 <= j < i ==> (#[trigger] chunks@[j]).0.key() == self.chunks@[j].0.key()
                        && chunks@[j].0.wf() && chunks@[j].1.per_part_length
                        == self.chunks@[j].1.per_part_length && chunks@[j].1.total_length
                        == self.chunks@[j].1.total_length && chunks@[j].1.is_start
                        == self.chunks@[j].1.is_start && chunks@[j].1.is_end
                        == self.chunks@[j].1.is_end && chunks@[j].1.duffer
                        == self.chunks@[j].1.duffer && chunks@[j].1.required
                        == self.chunks@[j].1.required && chunks@[j].1.lb_distance_from_rounds
                        == self.chunks@[j].1.lb_distance_from_rounds
                        && chunks@[j].1.lb_distance_to_rounds
                        == self.chunks@[j].1.lb_distance_to_rounds
                        && chunks@[j].1.false_chunks@.len()
                        == self.chunks@[j].1.false_chunks@.len(),
                forall|j: int, f: int|
                    0 <= j < i && 0 <= f < self.chunks@[j].1.false_chunks@.len() ==> (
                    #[trigger] chunks@[j].1.false_chunks@[f]).key()
                        == self.chunks@[j].1.false_chunks@[f].key(),
                forall|j: int, si: int|
                    0 <= j < i && 0 <= si < self.chunks@[j].1.successors@.len() ==> (
                    #[trigger] chunks@[j].1.successors@[si]).id.key()
                        == self.chunks@[j].1.successors@[si].id.key()
                        && chunks@[j].1.successors@[si].source_idx
                        == self.chunks@[j].1.successors@[si].source_idx
                        && chunks@[j].1.successors@[si].rotation
                        == self.chunks@[j].1.successors@[si].rotation
                        && chunks@[j].1.successors@[si].id.wf(),
                forall|j: int|
                    0 <= j < i ==> (#[trigger] chunks@[j]).1.successors@.len()
                        == self.chunks@[j].1.successors@.len() && chunks@[j].1.predecessors@.len()
                        == self.chunks@[j].1.predecessors@.len(),
                forall|j: int, pi: int|
                    0 <= j < i && 0 <= pi < self.chunks@[j].1.predecessors@.len() ==> (
                    #[trigger] chunks@[j].1.predecessors@[pi]).id.key()
                        == self.chunks@[j].1.predecessors@[pi].id.key()
                        && chunks@[j].1.predecessors@[pi].source_idx
                        == self.chunks@[j].1.predecessors@[pi].source_idx
                        && chunks@[j].1.predecessors@[pi].rotation
                        == self.chunks@[j].1.predecessors@[pi].rotation,
            decreases n - i,
        {
            let (id, c) = &self.chunks[i];
            let successors = duplicate_links(&c.successors);
            let predecessors = duplicate_links(&c.predecessors);
            let copy = Chunk {
                per_part_length: c.per_part_length,
                total_length: c.total_length,
                method_counts: c.method_counts.clone(),
                music: Breakdown { score: c.music.score, counts: c.music.counts.clone() },
                duffer: c.duffer,
                is_start: c.is_start,
                is_end: c.is_end,
                successors,
                predecessors,
                false_chunks: duplicate_ids(&c.false_chunks),
                required: c.required,
                lb_distance_from_rounds: c.lb_distance_from_rounds,
                lb_distance_to_rounds: c.lb_distance_to_rounds,
                lb_distance_from_non_duffer: c.lb_distance_from_non_duffer,
                lb_distance_to_non_duffer: c.lb_distance_to_non_duffer,
            };
            chunks.push((id.duplicate(), copy));
            i += 1;
        }
        let mut starts: Vec<(ChunkId, usize, Rotation)> = Vec::new();
        let ns = self.start_chunks.len();
        for k in 0..ns
            invariant
                self.wf(),
                ns == self.start_chunks@.len(),
                starts@.len() == k,
                forall|j: int|
                    0 <= j < k ==> (#[trigger] starts@[j]).0.key()
                        == self.start_chunks@[j].0.key() && starts@[j].1
                        == self.start_chunks@[j].1 && starts@[j].2 == self.start_chunks@[j].2,
        {
            let (id, si, rot) = &self.start_chunks[k];
            starts.push((id.duplicate(), *si, *rot));
        }
        let mut ends: Vec<ChunkId> = Vec::new();
        let ne = self.end_chunks.len();
        for k in 0..ne
            invariant
                self.wf(),
                ne == self.end_chunks@.len(),
                ends@.len() == k,
                forall|j: int|
                    0 <= j < k ==> (#[trigger] ends@[j]).key() == self.end_chunks@[j].key(),
        {
            ends.push(self.end_chunks[k].duplicate());
        }
        let g = Graph { chunks, start_chunks: starts, end_chunks: ends, num_parts: self.num_parts };
        proof {
            assert(g.keys_unique()) by {
                assert forall|i: int, j: int|
                    0 <= i < j < g.chunks@.len() implies (#[trigger] g.chunks@[i]).0.key() != (
                #[trigger] g.chunks@[j]).0.key() by {
                    assert(g.chunks@[i].0.key() == self.chunks@[i].0.key());
                    assert(g.chunks@[j].0.key() == self.chunks@[j].0.key());
                    assert(self.chunks@[i].0.key() != self.chunks@[j].0.key());
                }
            }
            assert(g.ids_wf()) by {
                assert forall|i: int|
                    0 <= i < g.chunks@.len() implies (#[trigger] g.chunks@[i]).0.wf() by {
                    assert(g.chunks@[i].0.key() == self.chunks@[i].0.key());
                    assert(self.chunks@[i].0.wf());
                }
                assert forall|i: int, si: int|
                    0 <= i < g.chunks@.len() && 0 <= si < g.chunks@[i].1.successors@.len() implies (
                #[trigger] g.chunks@[i].1.successors@[si]).rotation < g.num_parts
                    && g.chunks@[i].1.successors@[si].id.wf() by {
                    assert(g.chunks@[i].1.successors@[si].rotation
                        == self.chunks@[i].1.successors@[si].rotation);
                    assert(self.chunks@[i].1.successors@[si].rotation < self.num_parts);
                }
                assert forall|i: int, pi: int|
                    0 <= i < g.chunks@.len() && 0 <= pi < g.chunks@[i].1.predecessors@.len()
                    implies (#[trigger] g.chunks@[i].1.predecessors@[pi]).rotation
                    < g.num_parts by {
                    assert(g.chunks@[i].1.predecessors@[pi].rotation
                        == self.chunks@[i].1.predecessors@[pi].rotation);
                    assert(self.chunks@[i].1.predecessors@[pi].rotation < self.num_parts);
                }
            }
            assert(g.linked()) by {
                assert forall|ci: int, si: int, ti: int|
                    0 <= ci < g.chunks@.len() && 0 <= si < g.chunks@[ci].1.successors@.len() && 0
                        <= ti < g.chunks@.len() && (#[trigger] g.chunks@[ti]).0.key() == (
                    #[trigger] g.chunks@[ci].1.successors@[si]).id.key() implies has_pred_entry(
                    g.chunks@[ti].1.predecessors@,
                    g.chunks@[ci].0.key(),
                    g.chunks@[ci].1.successors@[si].source_idx as int,
                    spec_inv_rotation(
                        g.num_parts as int,
                        g.chunks@[ci].1.successors@[si].rotation as int,
                    ),
                ) by {
                    assert(self.chunks@[ti].0.key() == self.chunks@[ci].1.successors@[si].id.key());
                    assert(has_pred_entry(
                        self.chunks@[ti].1.predecessors@,
                        self.chunks@[ci].0.key(),
                        self.chunks@[ci].1.successors@[si].source_idx as int,
                        spec_inv_rotation(
                            self.num_parts as int,
                            self.chunks@[ci].1.successors@[si].rotation as int,
                        ),
                    ));
                    let pi = choose|pi: int|
                        0 <= pi < self.chunks@[ti].1.predecessors@.len() && (
                        #[trigger] self.chunks@[ti].1.predecessors@[pi]).id.key()
                            == self.chunks@[ci].0.key()
                            && self.chunks@[ti].1.predecessors@[pi].source_idx
                            == self.chunks@[ci].1.successors@[si].source_idx as int
                            && self.chunks@[ti].1.predecessors@[pi].rotation
                            == spec_inv_rotation(
                            self.num_parts as int,
                            self.chunks@[ci].1.successors@[si].rotation as int,
                        );
                    assert(g.chunks@[ti].1.predecessors@[pi].id.key()
                        == self.chunks@[ti].1.predecessors@[pi].id.key());
                }
            }
        }
        g
    }
}

/// A value-level copy of a list of links.
fn duplicate_links(links: &Vec<Link>) -> (r: Vec<Link>)
    ensures
        r@.len() == links@.len(),
        forall|i: int|
            0 <= i < links@.len() ==> (#[trigger] r@[i]).id.key() == links@[i].id.key()
                && r@[i].source_idx == links@[i].source_idx && r@[i].rotation == links@[i].rotation
                && r@[i].id.wf() == links@[i].id.wf(),
{
    let n = links.len();
    let mut out: Vec<Link> = Vec::new();
    for i in 0..n
        invariant
            n == links@.len(),
            out@.len() == i,
            forall|j: int|
                0 <= j < i ==> (#[trigger] out@[j]).id.key() == links@[j].id.key()
                    && out@[j].source_idx == links@[j].source_idx && out@[j].rotation
                    == links@[j].rotation && out@[j].id.wf() == links@[j].id.wf(),
    {
        let l = &links[i];
        out.push(Link { id: l.id.duplicate(), source_idx: l.source_idx, rotation: l.rotation });
    }
    out
}

/// A value-level copy of a list of chunk ids.
fn duplicate_ids(ids: &Vec<ChunkId>) -> (r: Vec<ChunkId>)
    ensures
        r@.len() == ids@.len(),
        forall|i: int| 0 <= i < ids@.len() ==> (#[trigger] r@[i]).key() == ids@[i].key(),
{
    let n = ids.len();
    let mut out: Vec<ChunkId> = Vec::new();
    for i in 0..n
        invariant
            n == ids@.len(),
            out@.len() == i,
            forall|j: int| 0 <= j < i ==> (#[trigger] out@[j]).key() == ids@[j].key(),
    {
        out.push(ids[i].duplicate());
    }
    out
}

/// The cyclic group generated by a part head: its powers until rounds recurs.
/// `None` only if rounds does not recur within `MAX_PARTS` powers.
pub fn part_head_group(part_head: &Row) -> (r: Option<Vec<Row>>)
    requires
        part_head.wf(),
    ensures
        match r {
            Some(phs) => {
                &&& phs@.len() >= 1
                &&& forall|g: int|
                    0 <= g < phs@.len() ==> (#[trigger] phs@[g]).wf() && phs@[g]@.len()
                        == part_head@.len() && phs@[g]@ == row_pow(part_head@, g as nat)
                &&& phs@[0]@ == rounds_seq(part_head@.len())
                &&& row_pow(part_head@, phs@.len() as nat) == rounds_seq(part_head@.len())
                &&& forall|k: nat|
                    1 <= k < phs@.len() ==> row_pow(part_head@, k) != rounds_seq(part_head@.len())
            },
            None => forall|k: nat|
                1 <= k <= MAX_PARTS ==> row_pow(part_head@, k) != rounds_seq(part_head@.len()),
        },
{
    let stage = part_head.stage();
    let mut phs: Vec<Row> = Vec::new();
    let mut cur = Row::rounds(stage);
    let mut g: usize = 0;
    loop
        invariant
            part_head.wf(),
            stage == part_head@.len(),
            cur.wf(),
            cur@.len() == stage,
            cur@ == row_pow(part_head@, g as nat),
            g <= MAX_PARTS,
            phs@.len() == g,
            forall|k: int|
                0 <= k < g ==> (#[trigger] phs@[k]).wf() && phs@[k]@.len() == stage && phs@[k]@
                    == row_pow(part_head@, k as nat),
            forall|k: nat| 1 <= k < g ==> row_pow(part_head@, k) != rounds_seq(stage as nat),
        decreases MAX_PARTS - g,
    {
        if g >= 1 && cur.is_rounds() {
            return Some(phs);
        }
        if g == MAX_PARTS {
            return None;
        }
        phs.push(cur.clone());
        let next = cur.mul(part_head);
        proof {
            assert(next@ =~= seq_compose(cur@, part_head@));
        }
        cur = next;
        g += 1;
    }
}

} // verus!

verus! {

/// Pushing a link keeps every predecessor entry the list already had.
pub proof fn lemma_pred_push(es: Seq<Link>, e: Link)
    ensures
        forall|k: (Seq<usize>, int, bool), idx: int, rot: int|
            has_pred_entry(es, k, idx, rot) ==> #[trigger] has_pred_entry(es.push(e), k, idx, rot),
{
    assert forall|k: (Seq<usize>, int, bool), idx: int, rot: int|
        has_pred_entry(es, k, idx, rot) implies #[trigger] has_pred_entry(
        es.push(e),
        k,
        idx,
        rot,
    ) by {
        let w = choose|w: int|
            0 <= w < es.len() && (#[trigger] es[w]).id.key() == k && es[w].source_idx == idx
                && es[w].rotation == rot;
        assert(es.push(e)[w] == es[w]);
    }
}

/// Rebuild every chunk's predecessor list from the successor lists: the
/// predecessors of a chunk are exactly the links that lead to it, with the
/// same link index and the inverse rotation.
pub fn wire_predecessors(chunks: Vec<(ChunkId, Chunk)>, num_parts: usize) -> (r: Vec<
    (ChunkId, Chunk),
>)
    requires
        num_parts >= 1,
        forall|i: int, j: int|
            0 <= i < j < chunks@.len() ==> (#[trigger] chunks@[i]).0.key() != (
            #[trigger] chunks@[j]).0.key(),
        forall|i: int, si: int|
            0 <= i < chunks@.len() && 0 <= si < chunks@[i].1.successors@.len() ==> (
            #[trigger] chunks@[i].1.successors@[si]).rotation < num_parts,
    ensures
        r@.len() == chunks@.len(),
        forall|i: int|
            0 <= i < chunks@.len() ==> (#[trigger] r@[i]).0 == chunks@[i].0 && r@[i].1.successors
                == chunks@[i].1.successors && r@[i].1.false_chunks == chunks@[i].1.false_chunks
                && r@[i].1.per_part_length == chunks@[i].1.per_part_length && r@[i].1.total_length
                == chunks@[i].1.total_length && r@[i].1.is_start == chunks@[i].1.is_start
                && r@[i].1.is_end == chunks@[i].1.is_end && r@[i].1.duffer == chunks@[i].1.duffer
                && r@[i].1.music == chunks@[i].1.music && r@[i].1.method_counts
                == chunks@[i].1.method_counts && r@[i].1.required == chunks@[i].1.required
                && r@[i].1.lb_distance_from_rounds == chunks@[i].1.lb_distance_from_rounds
                && r@[i].1.lb_distance_to_rounds == chunks@[i].1.lb_distance_to_rounds,
        forall|i: int, pi: int|
            0 <= i < r@.len() && 0 <= pi < r@[i].1.predecessors@.len() ==> (
            #[trigger] r@[i].1.predecessors@[pi]).rotation < num_parts,
        forall|ci: int, si: int, ti: int|
            0 <= ci < r@.len() && 0 <= si < r@[ci].1.successors@.len() && 0 <= ti < r@.len() && (
            #[trigger] r@[ti]).0.key() == (#[trigger] r@[ci].1.successors@[si]).id.key()
                ==> has_pred_entry(
                r@[ti].1.predecessors@,
                r@[ci].0.key(),
                r@[ci].1.successors@[si].source_idx as int,
                spec_inv_rotation(num_parts as int, r@[ci].1.successors@[si].rotation as int),
            ),
{
    let n = chunks.len();
    // Collect the predecessor entries for every chunk.
    let mut preds: Vec<Vec<Link>> = Vec::new();
    for i in 0..n
        invariant
            preds@.len() == i,
            forall|j: int| 0 <= j < i ==> (#[trigger] preds@[j])@.len() == 0,
    {
        preds.push(Vec::new());
    }
    let mut ci: usize = 0;
    while ci < n
        invariant
            n == chunks@.len(),
            num_parts >= 1,
            forall|i: int, j: int|
                0 <= i < j < chunks@.len() ==> (#[trigger] chunks@[i]).0.key() != (
                #[trigger] chunks@[j]).0.key(),
            forall|i: int, si: int|
                0 <= i < chunks@.len() && 0 <= si < chunks@[i].1.successors@.len() ==> (
                #[trigger] chunks@[i].1.successors@[si]).rotation < num_parts,
            ci <= n,
            preds@.len() == n,
            forall|t: int, pi: int|
                0 <= t < n && 0 <= pi < preds@[t]@.len() ==> (#[trigger] preds@[t]@[pi]).rotation
                    < num_parts,
            forall|c2: int, s2: int, t2: int|
                0 <= c2 < ci && 0 <= s2 < chunks@[c2].1.successors@.len() && 0 <= t2 < n && (
                #[trigger] chunks@[t2]).0.key() == (
                #[trigger] chunks@[c2].1.successors@[s2]).id.key() ==> has_pred_entry(
                    preds@[t2]@,
                    chunks@[c2].0.key(),
                    chunks@[c2].1.successors@[s2].source_idx as int,
                    spec_inv_rotation(
                        num_parts as int,
                        chunks@[c2].1.successors@[s2].rotation as int,
                    ),
                ),
        decreases n - ci,
    {
        let num_succs = chunks[ci].1.successors.len();
        let mut si: usize = 0;
        while si < num_succs
            invariant
                n == chunks@.len(),
                num_parts >= 1,
                forall|i: int, j: int|
                    0 <= i < j < chunks@.len() ==> (#[trigger] chunks@[i]).0.key() != (
                    #[trigger] chunks@[j]).0.key(),
                forall|i: int, si2: int|
                    0 <= i < chunks@.len() && 0 <= si2 < chunks@[i].1.successors@.len() ==> (
                    #[trigger] chunks@[i].1.successors@[si2]).rotation < num_parts,
                ci < n,
                num_succs == chunks@[ci as int].1.successors@.len(),
                si <= num_succs,
                preds@.len() == n,
                forall|t: int, pi: int|
                    0 <= t < n && 0 <= pi < preds@[t]@.len() ==> (
                    #[trigger] preds@[t]@[pi]).rotation < num_parts,
                forall|c2: int, s2: int, t2: int|
                    0 <= c2 < ci && 0 <= s2 < chunks@[c2].1.successors@.len() && 0 <= t2 < n && (
                    #[trigger] chunks@[t2]).0.key() == (
                    #[trigger] chunks@[c2].1.successors@[s2]).id.key() ==> has_pred_entry(
                        preds@[t2]@,
                        chunks@[c2].0.key(),
                        chunks@[c2].1.successors@[s2].source_idx as int,
                        spec_inv_rotation(
                            num_parts as int,
                            chunks@[c2].1.successors@[s2].rotation as int,
                        ),
                    ),
                forall|s2: int, t2: int|
                    0 <= s2 < si && 0 <= t2 < n && (#[trigger] chunks@[t2]).0.key() == (
                    #[trigger] chunks@[ci as int].1.successors@[s2]).id.key() ==> has_pred_entry(
                        preds@[t2]@,
                        chunks@[ci as int].0.key(),
                        chunks@[ci as int].1.successors@[s2].source_idx as int,
                        spec_inv_rotation(
                            num_parts as int,
                            chunks@[ci as int].1.successors@[s2].rotation as int,
                        ),
                    ),
            decreases num_succs - si,
        {
            // Find the link's target, if it is still in the graph.
            let mut target: Option<usize> = None;
            let mut t: usize = 0;
            while t < n
                invariant
                    n == chunks@.len(),
                    ci < n,
                    si < num_succs,
                    num_succs == chunks@[ci as int].1.successors@.len(),
                    t <= n,
                    match target {
                        Some(ti) => ti < n && chunks@[ti as int].0.key()
                            == chunks@[ci as int].1.successors@[si as int].id.key(),
                        None => forall|t2: int|
                            0 <= t2 < t ==> (#[trigger] chunks@[t2]).0.key()
                                != chunks@[ci as int].1.successors@[si as int].id.key(),
                    },
                decreases n - t,
            {
                if target.is_none() && chunks[t].0.same(&chunks[ci].1.successors[si].id) {
                    target = Some(t);
                }
                t += 1;
            }
            let ghost preds_before = preds@;
            match target {
                Some(ti) => {
                    let l_rot = chunks[ci].1.successors[si].rotation;
                    let l_idx = chunks[ci].1.successors[si].source_idx;
                    let entry = Link {
                        id: chunks[ci].0.duplicate(),
                        source_idx: l_idx,
                        rotation: inv_rotation(num_parts, l_rot),
                    };
                    let mut pl = preds.remove(ti);
                    let ghost old_list = pl@;
                    pl.push(entry);
                    preds.insert(ti, pl);
                    proof {
                        assert(preds@ =~= preds_before.update(ti as int, preds@[ti as int]));
                        assert(preds@[ti as int]@ == old_list.push(entry));
                        assert(old_list == preds_before[ti as int]@);
                        lemma_pred_push(preds_before[ti as int]@, entry);
                        assert(preds@[ti as int]@[preds@[ti as int]@.len() - 1].id.key()
                            == chunks@[ci as int].0.key());
                        assert forall|t2: int, pi: int|
                            0 <= t2 < n && 0 <= pi < preds@[t2]@.len() implies (
                        #[trigger] preds@[t2]@[pi]).rotation < num_parts by {
                            if t2 == ti {
                                if pi < preds@[t2]@.len() - 1 {
                                    assert(preds@[t2]@[pi] == preds_before[t2]@[pi]);
                                }
                            } else {
                                assert(preds@[t2] == preds_before[t2]);
                            }
                        }
                        // All earlier facts survive the push; the new link is
                        // recorded for the target.
                        assert forall|c2: int, s2: int, t2: int|
                            0 <= c2 < n && 0 <= s2 < chunks@[c2].1.successors@.len() && 0 <= t2 < n
                                && has_pred_entry(
                                preds_before[t2]@,
                                chunks@[c2].0.key(),
                                (#[trigger] chunks@[c2].1.successors@[s2]).source_idx as int,
                                spec_inv_rotation(
                                    num_parts as int,
                                    chunks@[c2].1.successors@[s2].rotation as int,
                                ),
                            ) implies has_pred_entry(
                            (#[trigger] preds@[t2])@,
                            chunks@[c2].0.key(),
                            chunks@[c2].1.successors@[s2].source_idx as int,
                            spec_inv_rotation(
                                num_parts as int,
                                chunks@[c2].1.successors@[s2].rotation as int,
                            ),
                        ) by {
                            if t2 == ti {
                                assert(preds@[t2]@ == preds_before[t2]@.push(entry));
                            } else {
                                assert(preds@[t2] == preds_before[t2]);
                            }
                        }
                    }
                },
                None => {},
            }
            si += 1;
            proof {
                assert forall|s2: int, t2: int|
                    0 <= s2 < si && 0 <= t2 < n && (#[trigger] chunks@[t2]).0.key() == (
                #[trigger] chunks@[ci as int].1.successors@[s2]).id.key() implies has_pred_entry(
                    preds@[t2]@,
                    chunks@[ci as int].0.key(),
                    chunks@[ci as int].1.successors@[s2].source_idx as int,
                    spec_inv_rotation(
                        num_parts as int,
                        chunks@[ci as int].1.successors@[s2].rotation as int,
                    ),
                ) by {
                    if s2 == si - 1 {
                        match target {
                            Some(ti) => {
                                // The only index with this key is the target.
                                if t2 != ti as int {
                                    assert(chunks@[t2].0.key() != chunks@[ti as int].0.key());
                                }
                                assert(t2 == ti as int);
                                assert(preds@[t2]@[preds@[t2]@.len() - 1].id.key()
                                    == chunks@[ci as int].0.key());
                            },
                            None => {
                                assert(chunks@[t2].0.key()
                                    != chunks@[ci as int].1.successors@[s2].id.key());
                            },
                        }
                    }
                }
            }
        }
        ci += 1;
    }
    // Write the collected lists back into the chunks.
    let mut out: Vec<(ChunkId, Chunk)> = Vec::new();
    let ghost chunks0 = chunks@;
    let ghost preds0 = preds@;
    let mut rest = chunks;
    let mut rest_preds = preds;
    let mut i: usize = 0;
    while i < n
        invariant
            n == chunks0.len(),
            preds0.len() == n,
            i <= n,
            out@.len() == i,
            rest@.len() == n - i,
            rest_preds@.len() == n - i,
            forall|j: int| 0 <= j < n - i ==> rest@[j] == chunks0[i + j],
            forall|j: int| 0 <= j < n - i ==> rest_preds@[j] == preds0[i + j],
            forall|j: int|
                0 <= j < i ==> (#[trigger] out@[j]).0 == chunks0[j].0 && out@[j].1.successors
                    == chunks0[j].1.successors && out@[j].1.false_chunks
                    == chunks0[j].1.false_chunks && out@[j].1.per_part_length
                    == chunks0[j].1.per_part_length && out@[j].1.total_length
                    == chunks0[j].1.total_length && out@[j].1.is_start == chunks0[j].1.is_start
                    && out@[j].1.is_end == chunks0[j].1.is_end && out@[j].1.duffer
                    == chunks0[j].1.duffer && out@[j].1.music == chunks0[j].1.music
                    && out@[j].1.method_counts == chunks0[j].1.method_counts
                    && out@[j].1.required == chunks0[j].1.required
                    && out@[j].1.lb_distance_from_rounds == chunks0[j].1.lb_distance_from_rounds
                    && out@[j].1.lb_distance_to_rounds == chunks0[j].1.lb_distance_to_rounds
                    && out@[j].1.predecessors@ == preds0[j]@,
        decreases n - i,
    {
        let (id, mut c) = rest.remove(0);
        let pl = rest_preds.remove(0);
        c.predecessors = pl;
        out.push((id, c));
        i += 1;
    }
    out
}

} // verus!

verus! {

/// No two rows of a segment are equal, so a chunk covering it cannot be false
/// against itself within one part.
pub open spec fn seg_rows_distinct(l: &crate::layout::Layout, seg: int) -> bool {
    forall|k1: int, k2: int|
        0 <= k1 < k2 < l.segments@[seg].row_range.1.length ==> (#[trigger] crate::layout::spec_segment_row(
            l,
            seg,
            k1,
        )) != (#[trigger] crate::layout::spec_segment_row(l, seg, k2))
}

/// A chunk with this course head is not false against its own copy in another
/// part: for every self-collision of its segment's rows, the canonical course
/// head of the colliding course is reached only at rotation zero.
pub open spec fn true_in_other_parts(
    l: &crate::layout::Layout,
    phs: Seq<Row>,
    ch: Seq<usize>,
    seg: int,
) -> bool {
    forall|k1: int, k2: int, x: Seq<usize>, rot: int|
        0 <= k1 < l.segments@[seg].row_range.1.length && 0 <= k2
            < l.segments@[seg].row_range.1.length && crate::falseness::fixed_bells_agree(
            l.fixed_bells@,
            crate::layout::spec_segment_row(l, seg, k1),
            crate::layout::spec_segment_row(l, seg, k2),
        ) && #[trigger] crate::falseness::canon_is(
            phs,
            seq_compose(
                ch,
                crate::falseness::collision_transposition(
                    crate::layout::spec_segment_row(l, seg, k1),
                    #[trigger] crate::layout::spec_segment_row(l, seg, k2),
                ),
            ),
            x,
            rot,
        ) && x == ch ==> rot == 0
}

/// Whether any two rows of a list are equal.
pub fn rows_distinct(rows: &Vec<Row>) -> (r: bool)
    ensures
        r == (forall|k1: int, k2: int|
            0 <= k1 < k2 < rows@.len() ==> (#[trigger] rows@[k1])@ != (#[trigger] rows@[k2])@),
{
    let n = rows.len();
    for k1 in 0..n
        invariant
            n == rows@.len(),
            forall|p: int, q: int|
                0 <= p < q < n && p < k1 ==> (#[trigger] rows@[p])@ != (#[trigger] rows@[q])@,
    {
        for k2 in (k1 + 1)..n
            invariant
                n == rows@.len(),
                k1 < n,
                forall|p: int, q: int|
                    0 <= p < q < n && p < k1 ==> (#[trigger] rows@[p])@ != (#[trigger] rows@[q])@,
                forall|q: int| k1 < q < k2 ==> (#[trigger] rows@[q])@ != rows@[k1 as int]@,
        {
            if rows[k1].eq(&rows[k2]) {
                return false;
            }
        }
    }
    true
}

/// Whether a course head is allowed by a segment's masks: no masks means no
/// restriction; otherwise some mask of the right stage must match.
fn masks_allow(masks: &Vec<Mask>, ch: &Row) -> (r: bool)
    ensures
        masks@.len() == 0 ==> r,
{
    let n = masks.len();
    if n == 0 {
        return true;
    }
    for i in 0..n
        invariant
            n == masks@.len(),
    {
        if masks[i].slots.len() == ch.stage() {
            if masks[i].matches(ch) {
                return true;
            }
        }
    }
    false
}

/// An id together with everything remembered about it when it was expanded.
pub struct ExpandedChunk {
    pub id: ChunkId,
    pub dist: usize,
    pub per_part: usize,
    pub total: usize,
    pub succs: Vec<Link>,
    pub is_end: bool,
}

/// The falseness wiring of one chunk, from the falseness table.  `None` means
/// the chunk is false against its own copy in another part and must not be
/// added.  Otherwise the list opens with the chunk's own id and holds every
/// known false chunk that was expanded.
pub fn chunk_falseness(
    table: &crate::falseness::FalsenessTable,
    part_heads: &Vec<Row>,
    id: &ChunkId,
    existing: &Vec<ChunkId>,
    stage: usize,
) -> (r: Option<Vec<ChunkId>>)
    requires
        part_heads@.len() >= 1,
        id.wf(),
        id.course_head@.len() == stage,
        forall|g: int|
            0 <= g < part_heads@.len() ==> (#[trigger] part_heads@[g]).wf()
                && part_heads@[g]@.len() == stage,
        forall|e: int|
            0 <= e < table.entries@.len() ==> (#[trigger] table.entries@[e]).transposition.wf()
                && table.entries@[e].transposition@.len() == stage,
    ensures
        match r {
            Some(fcs) => {
                &&& fcs@.len() >= 1
                &&& fcs@[0].key() == id.key()
                &&& forall|e: int, x: Seq<usize>, rot: int|
                    0 <= e < table.entries@.len() && (#[trigger] table.entries@[e]).seg1
                        == id.seg as int && table.entries@[e].seg2 == id.seg as int
                        && #[trigger] crate::falseness::canon_is(
                        part_heads@,
                        seq_compose(id.course_head@, table.entries@[e].transposition@),
                        x,
                        rot,
                    ) && x == id.course_head@ ==> rot == 0
            },
            None => true,
        },
{
    let mut fcs: Vec<ChunkId> = Vec::new();
    fcs.push(id.duplicate());
    let num_entries = table.entries.len();
    let mut e: usize = 0;
    while e < num_entries
        invariant
            part_heads@.len() >= 1,
            id.wf(),
            id.course_head@.len() == stage,
            forall|g: int|
                0 <= g < part_heads@.len() ==> (#[trigger] part_heads@[g]).wf()
                    && part_heads@[g]@.len() == stage,
            forall|e2: int|
                0 <= e2 < table.entries@.len() ==> (#[trigger] table.entries@[e2]).transposition.wf()
                    && table.entries@[e2].transposition@.len() == stage,
            num_entries == table.entries@.len(),
            e <= num_entries,
            fcs@.len() >= 1,
            fcs@[0].key() == id.key(),
            forall|e2: int, x: Seq<usize>, rot: int|
                0 <= e2 < e && (#[trigger] table.entries@[e2]).seg1 == id.seg as int
                    && table.entries@[e2].seg2 == id.seg as int
                    && #[trigger] crate::falseness::canon_is(
                    part_heads@,
                    seq_compose(id.course_head@, table.entries@[e2].transposition@),
                    x,
                    rot,
                ) && x == id.course_head@ ==> rot == 0,
        decreases num_entries - e,
    {
        if table.entries[e].seg1 == id.seg {
            let entry = &table.entries[e];
            let false_raw = id.course_head.mul(&entry.transposition);
            proof {
                assert(false_raw@ =~= seq_compose(id.course_head@, entry.transposition@));
            }
            let (false_ch, rot) = crate::falseness::canonical_course_head(part_heads, &false_raw);
            // A hit on the chunk's own id in another part makes it unringable.
            let self_hit = entry.seg2 == id.seg && rot != 0 && false_ch.eq(&id.course_head);
            if self_hit {
                return None;
            }
            proof {
                // Any canonical witness agrees with the one just computed.
                assert forall|x: Seq<usize>, rot2: int|
                    (#[trigger] crate::falseness::canon_is(
                        part_heads@,
                        seq_compose(id.course_head@, table.entries@[e as int].transposition@),
                        x,
                        rot2,
                    )) && x == id.course_head@ && table.entries@[e as int].seg2
                        == id.seg as int implies rot2 == 0 by {
                    crate::falseness::lemma_canon_unique(
                        part_heads@,
                        seq_compose(id.course_head@, table.entries@[e as int].transposition@),
                        x,
                        rot2,
                        false_ch@,
                        rot as int,
                    );
                    assert(false_ch@ == id.course_head@);
                    assert(rot == 0);
                }
            }
            // Record the false chunk if it was expanded, under either start flag.
            let cand_plain = ChunkId {
                course_head: false_ch.clone(),
                seg: entry.seg2,
                is_start: false,
            };
            let cand_start = ChunkId {
                course_head: false_ch,
                seg: entry.seg2,
                is_start: true,
            };
            let ne = existing.len();
            let mut found_plain = false;
            let mut found_start = false;
            for x in 0..ne
                invariant
                    ne == existing@.len(),
            {
                if existing[x].same(&cand_plain) {
                    found_plain = true;
                }
                if existing[x].same(&cand_start) {
                    found_start = true;
                }
            }
            if found_plain {
                fcs.push(cand_plain);
            }
            if found_start {
                fcs.push(cand_start);
            }
            proof {
                assert(fcs@[0].key() == id.key());
            }
        }
        e += 1;
    }
    Some(fcs)
}

} // verus!

verus! {

impl Graph {
    /// Build the unoptimised chunk graph: expand every chunk reachable from
    /// the layout's start segments within `max_length` rows, fill in lengths,
    /// method counts, music and falseness, and wire the predecessor links.
    #[verifier::loop_isolation(false)]
    #[verifier::rlimit(100)]
    pub fn from_layout(
        layout: &crate::layout::Layout,
        seg_methods: &Vec<usize>,
        num_methods: usize,
        music_types: &Vec<MusicType>,
        ch_weights: &Vec<(Mask, i64)>,
        max_length: usize,
        part_heads: &Vec<Row>,
        start_stroke: crate::music::Stroke,
        allow_false: bool,
        graph_size_limit: usize,
    ) -> (r: Result<Graph, crate::Error>)
        requires
            layout.wf(),
            seg_methods@.len() == layout.segments@.len(),
            forall|s: int| 0 <= s < seg_methods@.len() ==> (#[trigger] seg_methods@[s]) < num_methods,
            part_heads@.len() >= 1,
            forall|g: int|
                0 <= g < part_heads@.len() ==> (#[trigger] part_heads@[g]).wf()
                    && part_heads@[g]@.len() == layout.spec_stage(),
            forall|t: int|
                0 <= t < music_types@.len() ==> (#[trigger] music_types@[t]).wf(
                    layout.spec_stage(),
                ),
            forall|w: int|
                0 <= w < ch_weights@.len() ==> (#[trigger] ch_weights@[w]).0.slots@.len()
                    == layout.spec_stage(),
        ensures
            match r {
                Ok(g) => {
                    &&& g.wf()
                    &&& g.num_parts == part_heads@.len()
                    &&& (!allow_false ==> g.self_false_included())
                    &&& (!allow_false ==> forall|i: int|
                        0 <= i < g.chunks@.len() ==> seg_rows_distinct(
                            layout,
                            (#[trigger] g.chunks@[i]).0.seg as int,
                        ))
                    &&& (!allow_false ==> forall|i: int|
                        0 <= i < g.chunks@.len() ==> true_in_other_parts(
                            layout,
                            part_heads@,
                            (#[trigger] g.chunks@[i]).0.course_head@,
                            g.chunks@[i].0.seg as int,
                        ))
                    &&& forall|i: int|
                        0 <= i < g.chunks@.len() ==> (#[trigger] g.chunks@[i]).1.total_length
                            == g.chunks@[i].1.per_part_length * part_heads@.len()
                    &&& forall|i: int|
                        0 <= i < g.chunks@.len() ==> (#[trigger] g.chunks@[i]).1.lb_distance_from_rounds
                            + g.chunks@[i].1.total_length <= max_length && g.chunks@[i].1.lb_distance_to_rounds
                            == 0
                    &&& ((exists|t: int|
                        0 <= t < music_types@.len() && (#[trigger] music_types@[t]).stroke_set
                            != crate::music::StrokeSet::Both) ==> forall|i: int|
                        0 <= i < g.chunks@.len() ==> ((#[trigger] g.chunks@[i]).1.per_part_length
                            % 2 == 0 || g.chunks@[i].1.is_end))
                    &&& forall|i: int|
                        0 <= i < g.chunks@.len() ==> (#[trigger] g.chunks@[i]).1.method_counts@.len()
                            == num_methods && (forall|m: int|
                            0 <= m < num_methods ==> (#[trigger] g.chunks@[i].1.method_counts@[m])
                                == (if m == seg_methods@[g.chunks@[i].0.seg as int] as int {
                                g.chunks@[i].1.total_length as int
                            } else {
                                0
                            }))
                    &&& forall|i: int|
                        0 <= i < g.chunks@.len() ==> (#[trigger] g.chunks@[i]).1.music.counts@.len()
                            == music_types@.len() && (g.chunks@[i].1.duffer == !(exists|t: int|
                            0 <= t < music_types@.len() && (#[trigger] music_types@[t]).non_duffer
                                && g.chunks@[i].1.music.counts@[t] > 0))
                    &&& forall|i: int|
                        0 <= i < g.chunks@.len() && (#[trigger] g.chunks@[i]).1.is_end ==> exists|
                            e: int,
                        | 0 <= e < g.end_chunks@.len() && (#[trigger] g.end_chunks@[e]).key()
                            == g.chunks@[i].0.key()
                },
                Err(e) => (e is SizeLimit || e is InconsistentStroke) && (e is InconsistentStroke
                    ==> exists|t: int|
                    0 <= t < music_types@.len() && (#[trigger] music_types@[t]).stroke_set
                        != crate::music::StrokeSet::Both),
            },
    {
        let stage = layout.stage();
        let num_parts = part_heads.len();
        let num_segments = layout.segments.len();
        // Whether any music type cares about strokes.
        let num_types = music_types.len();
        let mut stroke_dependent = false;
        for t in 0..num_types
            invariant
                num_types == music_types@.len(),
                stroke_dependent == (exists|t2: int|
                    0 <= t2 < t && (#[trigger] music_types@[t2]).stroke_set
                        != crate::music::StrokeSet::Both),
        {
            if !(matches!(music_types[t].stroke_set, crate::music::StrokeSet::Both)) {
                stroke_dependent = true;
            }
        }
        // Start chunks: one per start segment whose first course-head mask pins
        // a whole row.
        let mut start_chunks: Vec<(ChunkId, usize, Rotation)> = Vec::new();
        let mut frontier: Vec<(ChunkId, usize)> = Vec::new();
        let mut seg: usize = 0;
        while seg < num_segments
            invariant
                layout.wf(),
                stage == layout.spec_stage(),
                num_segments == layout.segments@.len(),
                part_heads@.len() >= 1,
                num_parts == part_heads@.len(),
                forall|g: int|
                    0 <= g < part_heads@.len() ==> (#[trigger] part_heads@[g]).wf()
                        && part_heads@[g]@.len() == stage,
                seg <= num_segments,
                forall|i: int|
                    0 <= i < start_chunks@.len() ==> (#[trigger] start_chunks@[i]).0.wf()
                        && start_chunks@[i].0.seg < num_segments
                        && start_chunks@[i].0.course_head@.len() == stage
                        && start_chunks@[i].0.is_start,
                forall|i: int|
                    0 <= i < frontier@.len() ==> (#[trigger] frontier@[i]).0.wf()
                        && frontier@[i].0.seg < num_segments && frontier@[i].0.course_head@.len()
                        == stage,
            decreases num_segments - seg,
        {
            if matches!(layout.segments[seg].position, crate::layout::Position::Start) {
                if layout.segments[seg].course_head_masks.len() >= 1 {
                    let mask = &layout.segments[seg].course_head_masks[0];
                    let nm = mask.slots.len();
                    let mut bells: Vec<usize> = Vec::new();
                    let mut complete = true;
                    for p in 0..nm
                        invariant
                            nm == mask.slots@.len(),
                            complete ==> bells@.len() == p,
                    {
                        match mask.slots[p] {
                            Some(b) => bells.push(b),
                            None => {
                                complete = false;
                            },
                        }
                    }
                    if complete {
                        match Row::from_bells(bells) {
                            Some(ch) => {
                                if ch.stage() == stage {
                                    let (canon, rot) = crate::falseness::canonical_course_head(
                                        part_heads,
                                        &ch,
                                    );
                                    let id = ChunkId {
                                        course_head: canon,
                                        seg,
                                        is_start: true,
                                    };
                                    frontier.push((id.duplicate(), 0));
                                    start_chunks.push((id, seg, rot));
                                }
                            },
                            None => {},
                        }
                    }
                }
            }
            seg += 1;
        }
        // Dijkstra-style expansion: repeatedly take the unexpanded id with the
        // smallest distance and record its successors.
        let mut expanded: Vec<ExpandedChunk> = Vec::new();
        let mut budget: u64 = u64::MAX;
        loop
            invariant
                layout.wf(),
                stage == layout.spec_stage(),
                num_segments == layout.segments@.len(),
                seg_methods@.len() == num_segments,
                part_heads@.len() >= 1,
                num_parts == part_heads@.len(),
                forall|g: int|
                    0 <= g < part_heads@.len() ==> (#[trigger] part_heads@[g]).wf()
                        && part_heads@[g]@.len() == stage,
                forall|i: int|
                    0 <= i < frontier@.len() ==> (#[trigger] frontier@[i]).0.wf()
                        && frontier@[i].0.seg < num_segments && frontier@[i].0.course_head@.len()
                        == stage,
                forall|i: int, j: int|
                    0 <= i < j < expanded@.len() ==> (#[trigger] expanded@[i]).id.key() != (
                    #[trigger] expanded@[j]).id.key(),
                forall|i: int|
                    0 <= i < expanded@.len() ==> (#[trigger] expanded@[i]).id.wf()
                        && expanded@[i].id.seg < num_segments
                        && expanded@[i].id.course_head@.len() == stage && expanded@[i].total
                        == expanded@[i].per_part * num_parts && expanded@[i].dist
                        + expanded@[i].total <= max_length && expanded@[i].per_part
                        == layout.segments@[expanded@[i].id.seg as int].row_range.1.length,
                forall|i: int, si: int|
                    0 <= i < expanded@.len() && 0 <= si < expanded@[i].succs@.len() ==> (
                    #[trigger] expanded@[i].succs@[si]).rotation < num_parts
                        && expanded@[i].succs@[si].id.wf(),
                expanded@.len() <= graph_size_limit,
            decreases budget,
        {
            if frontier.len() == 0 {
                break;
            }
            if budget == 0 {
                return Err(crate::Error::SizeLimit(graph_size_limit));
            }
            budget = budget - 1;
            // Pop the entry with the smallest distance.
            let mut best: usize = 0;
            let flen = frontier.len();
            for i in 1..flen
                invariant
                    flen == frontier@.len(),
                    best < flen,
                    flen >= 1,
            {
                if frontier[i].1 < frontier[best].1 {
                    best = i;
                }
            }
            let (id, dist) = frontier.swap_remove(best);
            // Skip anything already expanded.
            let mut seen = false;
            let elen = expanded.len();
            for i in 0..elen
                invariant
                    elen == expanded@.len(),
                    seen == (exists|j: int|
                        0 <= j < i && (#[trigger] expanded@[j]).id.key() == id.key()),
            {
                if expanded[i].id.same(&id) {
                    seen = true;
                }
            }
            if seen {
                continue;
            }
            let per_part = layout.segments[id.seg].row_range.1.length;
            let total = match per_part.checked_mul(num_parts) {
                Some(t) => t,
                None => {
                    continue;
                },
            };
            let new_dist = match dist.checked_add(total) {
                Some(d) => d,
                None => {
                    continue;
                },
            };
            if new_dist > max_length {
                continue;
            }
            if expanded.len() >= graph_size_limit {
                return Err(crate::Error::SizeLimit(graph_size_limit));
            }
            let is_end = matches!(layout.segments[id.seg].position, crate::layout::Position::End);
            let mut succs: Vec<Link> = Vec::new();
            if !is_end {
                let num_links = layout.segments[id.seg].links.len();
                let mut li: usize = 0;
                while li < num_links
                    invariant
                        layout.wf(),
                        stage == layout.spec_stage(),
                        num_segments == layout.segments@.len(),
                        part_heads@.len() >= 1,
                        num_parts == part_heads@.len(),
                        forall|g: int|
                            0 <= g < part_heads@.len() ==> (#[trigger] part_heads@[g]).wf()
                                && part_heads@[g]@.len() == stage,
                        id.wf(),
                        id.seg < num_segments,
                        id.course_head@.len() == stage,
                        num_links == layout.segments@[id.seg as int].links@.len(),
                        li <= num_links,
                        forall|i: int|
                            0 <= i < succs@.len() ==> (#[trigger] succs@[i]).rotation < num_parts
                                && succs@[i].id.wf() && succs@[i].id.seg < num_segments
                                && succs@[i].id.course_head@.len() == stage,
                        forall|i: int|
                            0 <= i < frontier@.len() ==> (#[trigger] frontier@[i]).0.wf()
                                && frontier@[i].0.seg < num_segments
                                && frontier@[i].0.course_head@.len() == stage,
                    decreases num_links - li,
                {
                    let link = &layout.segments[id.seg].links[li];
                    let succ_raw = id.course_head.mul(&link.transposition);
                    let (canon, g) = crate::falseness::canonical_course_head(
                        part_heads,
                        &succ_raw,
                    );
                    let t_seg = link.end_segment.idx;
                    // The target itself, if its course-head masks allow this
                    // course.
                    if masks_allow(&layout.segments[t_seg].course_head_masks, &succ_raw) {
                        let succ_id = ChunkId {
                            course_head: canon.clone(),
                            seg: t_seg,
                            is_start: false,
                        };
                        frontier.push((succ_id.duplicate(), new_dist));
                        succs.push(Link { id: succ_id, source_idx: li, rotation: g });
                    }
                    // The target's truncations: the composition may stop at an
                    // end segment partway through the target's course.
                    let num_truncs = layout.segments[t_seg].truncations.len();
                    let mut tr: usize = 0;
                    while tr < num_truncs
                        invariant
                            layout.wf(),
                            stage == layout.spec_stage(),
                            num_segments == layout.segments@.len(),
                            part_heads@.len() >= 1,
                            num_parts == part_heads@.len(),
                            forall|g2: int|
                                0 <= g2 < part_heads@.len() ==> (#[trigger] part_heads@[g2]).wf()
                                    && part_heads@[g2]@.len() == stage,
                            t_seg < num_segments,
                            num_truncs == layout.segments@[t_seg as int].truncations@.len(),
                            tr <= num_truncs,
                            canon.wf(),
                            canon@.len() == stage,
                            g < num_parts,
                            succ_raw.wf(),
                            succ_raw@.len() == stage,
                            forall|i: int|
                                0 <= i < succs@.len() ==> (#[trigger] succs@[i]).rotation
                                    < num_parts && succs@[i].id.wf() && succs@[i].id.seg
                                    < num_segments && succs@[i].id.course_head@.len() == stage,
                            forall|i: int|
                                0 <= i < frontier@.len() ==> (#[trigger] frontier@[i]).0.wf()
                                    && frontier@[i].0.seg < num_segments
                                    && frontier@[i].0.course_head@.len() == stage,
                        decreases num_truncs - tr,
                    {
                        let e_idx = layout.segments[t_seg].truncations[tr].idx;
                        if e_idx < num_segments {
                            if masks_allow(
                                &layout.segments[e_idx].course_head_masks,
                                &succ_raw,
                            ) {
                                let trunc_id = ChunkId {
                                    course_head: canon.clone(),
                                    seg: e_idx,
                                    is_start: false,
                                };
                                frontier.push((trunc_id.duplicate(), new_dist));
                                succs.push(
                                    Link { id: trunc_id, source_idx: li, rotation: g },
                                );
                            }
                        }
                        tr += 1;
                    }
                    li += 1;
                }
            }
            proof {
                vstd::arithmetic::mul::lemma_mul_is_commutative(
                    per_part as int,
                    num_parts as int,
                );
            }
            expanded.push(ExpandedChunk { id, dist, per_part, total, succs, is_end });
            // Re-establish uniqueness after the push.
            proof {
                assert forall|i: int, j: int|
                    0 <= i < j < expanded@.len() implies (#[trigger] expanded@[i]).id.key() != (
                #[trigger] expanded@[j]).id.key() by {
                    if j == expanded@.len() - 1 {
                        assert(!(exists|j2: int|
                            0 <= j2 < elen && (#[trigger] expanded@[j2]).id.key()
                                == expanded@[j].id.key()));
                    }
                }
            }
        }
        // The falseness table, if falseness matters.
        let table = crate::falseness::FalsenessTable::from_layout(layout);
        let mut existing: Vec<ChunkId> = Vec::new();
        let elen = expanded.len();
        for i in 0..elen
            invariant
                elen == expanded@.len(),
                existing@.len() == i,
                forall|j: int|
                    0 <= j < elen ==> (#[trigger] expanded@[j]).id.wf()
                        && expanded@[j].id.course_head@.len() == stage,
                forall|j: int|
                    0 <= j < i ==> (#[trigger] existing@[j]).key() == expanded@[j].id.key(),
        {
            existing.push(expanded[i].id.duplicate());
        }
        // Build the chunks.
        let mut chunks: Vec<(ChunkId, Chunk)> = Vec::new();
        let mut end_chunks: Vec<ChunkId> = Vec::new();
        let mut ei: usize = 0;
        while ei < elen
            invariant
                layout.wf(),
                stage == layout.spec_stage(),
                num_segments == layout.segments@.len(),
                seg_methods@.len() == num_segments,
                forall|s: int|
                    0 <= s < seg_methods@.len() ==> (#[trigger] seg_methods@[s]) < num_methods,
                part_heads@.len() >= 1,
                num_parts == part_heads@.len(),
                forall|g: int|
                    0 <= g < part_heads@.len() ==> (#[trigger] part_heads@[g]).wf()
                        && part_heads@[g]@.len() == stage,
                num_types == music_types@.len(),
                forall|t: int|
                    0 <= t < music_types@.len() ==> (#[trigger] music_types@[t]).wf(stage as nat),
                forall|w: int|
                    0 <= w < ch_weights@.len() ==> (#[trigger] ch_weights@[w]).0.slots@.len()
                        == stage,
                stroke_dependent == (exists|t2: int|
                    0 <= t2 < music_types@.len() && (#[trigger] music_types@[t2]).stroke_set
                        != crate::music::StrokeSet::Both),
                elen == expanded@.len(),
                ei <= elen,
                forall|i: int, j: int|
                    0 <= i < j < expanded@.len() ==> (#[trigger] expanded@[i]).id.key() != (
                    #[trigger] expanded@[j]).id.key(),
                forall|i: int|
                    0 <= i < expanded@.len() ==> (#[trigger] expanded@[i]).id.wf()
                        && expanded@[i].id.seg < num_segments
                        && expanded@[i].id.course_head@.len() == stage && expanded@[i].total
                        == expanded@[i].per_part * num_parts && expanded@[i].dist
                        + expanded@[i].total <= max_length && expanded@[i].per_part
                        == layout.segments@[expanded@[i].id.seg as int].row_range.1.length,
                forall|i: int, si: int|
                    0 <= i < expanded@.len() && 0 <= si < expanded@[i].succs@.len() ==> (
                    #[trigger] expanded@[i].succs@[si]).rotation < num_parts
                        && expanded@[i].succs@[si].id.wf(),
                forall|e2: int|
                    0 <= e2 < table.entries@.len() ==> (
                    #[trigger] table.entries@[e2]).transposition.wf()
                        && table.entries@[e2].transposition@.len() == stage
                        && table.entries@[e2].seg1 < num_segments && table.entries@[e2].seg2
                        < num_segments,
                existing@.len() == elen,
                forall|j: int|
                    0 <= j < elen ==> (#[trigger] existing@[j]).key() == expanded@[j].id.key(),
                forall|a: int, b: int|
                    0 <= a < b < chunks@.len() ==> (#[trigger] chunks@[a]).0.key() != (
                    #[trigger] chunks@[b]).0.key(),
                forall|a: int|
                    0 <= a < chunks@.len() ==> exists|e2: int|
                        0 <= e2 < ei && (#[trigger] chunks@[a]).0.key() == (
                        #[trigger] expanded@[e2]).id.key(),
                forall|a: int|
                    0 <= a < chunks@.len() ==> (#[trigger] chunks@[a]).0.wf(),
                forall|a: int, si: int|
                    0 <= a < chunks@.len() && 0 <= si < chunks@[a].1.successors@.len() ==> (
                    #[trigger] chunks@[a].1.successors@[si]).rotation < num_parts
                        && chunks@[a].1.successors@[si].id.wf(),
                forall|a: int|
                    0 <= a < chunks@.len() ==> (#[trigger] chunks@[a]).1.total_length
                        == chunks@[a].1.per_part_length * num_parts
                        && chunks@[a].1.lb_distance_from_rounds + chunks@[a].1.total_length
                        <= max_length && chunks@[a].1.lb_distance_to_rounds == 0,
                !allow_false ==> forall|a: int|
                    0 <= a < chunks@.len() ==> seg_rows_distinct(
                        layout,
                        (#[trigger] chunks@[a]).0.seg as int,
                    ),
                !allow_false ==> forall|a: int|
                    0 <= a < chunks@.len() ==> true_in_other_parts(
                        layout,
                        part_heads@,
                        (#[trigger] chunks@[a]).0.course_head@,
                        chunks@[a].0.seg as int,
                    ),
                !allow_false ==> forall|a: int|
                    0 <= a < chunks@.len() ==> (#[trigger] chunks@[a]).1.false_chunks@.len() >= 1
                        && chunks@[a].1.false_chunks@[0].key() == chunks@[a].0.key(),
                stroke_dependent ==> forall|a: int|
                    0 <= a < chunks@.len() ==> ((#[trigger] chunks@[a]).1.per_part_length % 2 == 0
                        || chunks@[a].1.is_end),
                forall|a: int|
                    0 <= a < chunks@.len() ==> (#[trigger] chunks@[a]).1.method_counts@.len()
                        == num_methods && (forall|m: int|
                        0 <= m < num_methods ==> (#[trigger] chunks@[a].1.method_counts@[m]) == (
                        if m == seg_methods@[chunks@[a].0.seg as int] as int {
                            chunks@[a].1.total_length as int
                        } else {
                            0
                        })),
                forall|a: int|
                    0 <= a < chunks@.len() ==> (#[trigger] chunks@[a]).1.music.counts@.len()
                        == num_types && (chunks@[a].1.duffer == !(exists|t: int|
                        0 <= t < music_types@.len() && (#[trigger] music_types@[t]).non_duffer
                            && chunks@[a].1.music.counts@[t] > 0)),
                forall|a: int|
                    0 <= a < chunks@.len() && (#[trigger] chunks@[a]).1.is_end ==> exists|e2: int|
                        0 <= e2 < end_chunks@.len() && (#[trigger] end_chunks@[e2]).key()
                            == chunks@[a].0.key(),
            decreases elen - ei,
        {
            let e = &expanded[ei];
            let rows = layout.segment_rows(e.id.seg);
            // Reject chunks whose music could start at either stroke.
            if stroke_dependent && e.per_part % 2 == 1 && !e.is_end {
                return Err(crate::Error::InconsistentStroke);
            }
            // Falseness: a chunk that repeats a row, or collides with its own
            // copy in another part, is never added.
            let mut false_chunks: Vec<ChunkId> = Vec::new();
            let mut keep = true;
            if !allow_false {
                if !rows_distinct(&rows) {
                    keep = false;
                } else {
                    match chunk_falseness(&table, part_heads, &e.id, &existing, stage) {
                        Some(fcs) => {
                            false_chunks = fcs;
                        },
                        None => {
                            keep = false;
                        },
                    }
                }
            }
            if keep {
                // Music, accumulated across the parts.
                let mut music = Breakdown::zero(num_types);
                let mut g: usize = 0;
                while g < num_parts
                    invariant
                        layout.wf(),
                        stage == layout.spec_stage(),
                        part_heads@.len() >= 1,
                        num_parts == part_heads@.len(),
                        forall|g2: int|
                            0 <= g2 < part_heads@.len() ==> (#[trigger] part_heads@[g2]).wf()
                                && part_heads@[g2]@.len() == stage,
                        num_types == music_types@.len(),
                        forall|t: int|
                            0 <= t < music_types@.len() ==> (#[trigger] music_types@[t]).wf(
                                stage as nat,
                            ),
                        forall|w: int|
                            0 <= w < ch_weights@.len() ==> (#[trigger] ch_weights@[w]).0.slots@.len()
                                == stage,
                        ei < elen,
                        elen == expanded@.len(),
                        expanded@[ei as int].id.wf(),
                        expanded@[ei as int].id.course_head@.len() == stage,
                        e == &expanded@[ei as int],
                        rows@.len() == expanded@[ei as int].per_part,
                        forall|k: int|
                            0 <= k < rows@.len() ==> (#[trigger] rows@[k]).wf() && rows@[k]@.len()
                                == stage,
                        g <= num_parts,
                        music.counts@.len() == num_types,
                    decreases num_parts - g,
                {
                    let ch_g = part_heads[g].mul(&e.id.course_head);
                    let bd = Breakdown::from_rows(
                        &rows,
                        &ch_g,
                        music_types,
                        if e.per_part % 2 == 0 || g % 2 == 0 {
                            start_stroke
                        } else {
                            start_stroke.flip()
                        },
                    );
                    music.accumulate(&bd);
                    // Course-head weights apply to each row of a matching part.
                    let nw = ch_weights.len();
                    for w in 0..nw
                        invariant
                            nw == ch_weights@.len(),
                            forall|w2: int|
                                0 <= w2 < ch_weights@.len() ==> (
                                #[trigger] ch_weights@[w2]).0.slots@.len() == stage,
                            ch_g@.len() == stage,
                            music.counts@.len() == num_types,
                    {
                        if ch_weights[w].0.matches(&ch_g) {
                            music.score = crate::music::score_add(
                                music.score,
                                crate::music::score_mul(
                                    ch_weights[w].1,
                                    crate::music::counts_to_i64(e.per_part),
                                ),
                            );
                        }
                    }
                    g += 1;
                }
                // A chunk is a duffer unless some non-duffer type scored.
                let mut non_duffer = false;
                for t in 0..num_types
                    invariant
                        num_types == music_types@.len(),
                        music.counts@.len() == num_types,
                        non_duffer == (exists|t2: int|
                            0 <= t2 < t && (#[trigger] music_types@[t2]).non_duffer
                                && music.counts@[t2] > 0),
                {
                    if music_types[t].non_duffer && music.counts[t] > 0 {
                        non_duffer = true;
                    }
                }
                // Method counts: all of this chunk's rows belong to its
                // segment's method.
                let mut method_counts: Vec<usize> = Vec::new();
                for m in 0..num_methods
                    invariant
                        method_counts@.len() == m,
                        forall|m2: int| 0 <= m2 < m ==> (#[trigger] method_counts@[m2]) == 0,
                {
                    method_counts.push(0);
                }
                let this_method = seg_methods[e.id.seg];
                if this_method < method_counts.len() {
                    method_counts.set(this_method, e.total);
                }
                proof {
                    assert(seg_methods@[e.id.seg as int] < num_methods);
                }
                let chunk = Chunk {
                    per_part_length: e.per_part,
                    total_length: e.total,
                    method_counts,
                    music,
                    duffer: !non_duffer,
                    is_start: e.id.is_start,
                    is_end: e.is_end,
                    successors: duplicate_links(&e.succs),
                    predecessors: Vec::new(),
                    false_chunks,
                    required: false,
                    lb_distance_from_rounds: e.dist,
                    lb_distance_to_rounds: 0,
                    lb_distance_from_non_duffer: 0,
                    lb_distance_to_non_duffer: 0,
                };
                proof {
                    if !allow_false {
                        let segi = e.id.seg as int;
                        assert(seg_rows_distinct(layout, segi)) by {
                            assert forall|k1: int, k2: int|
                                0 <= k1 < k2
                                    < layout.segments@[segi].row_range.1.length implies (
                            #[trigger] crate::layout::spec_segment_row(layout, segi, k1)) != (
                            #[trigger] crate::layout::spec_segment_row(layout, segi, k2)) by {
                                assert(rows@[k1]@ == crate::layout::spec_segment_row(
                                    layout,
                                    segi,
                                    k1,
                                ));
                                assert(rows@[k2]@ == crate::layout::spec_segment_row(
                                    layout,
                                    segi,
                                    k2,
                                ));
                            }
                        }
                        assert(true_in_other_parts(
                            layout,
                            part_heads@,
                            e.id.course_head@,
                            segi,
                        )) by {
                            assert forall|k1: int, k2: int, x: Seq<usize>, rot: int|
                                0 <= k1 < layout.segments@[segi].row_range.1.length && 0 <= k2
                                    < layout.segments@[segi].row_range.1.length
                                    && crate::falseness::fixed_bells_agree(
                                    layout.fixed_bells@,
                                    crate::layout::spec_segment_row(layout, segi, k1),
                                    crate::layout::spec_segment_row(layout, segi, k2),
                                ) && #[trigger] crate::falseness::canon_is(
                                    part_heads@,
                                    seq_compose(
                                        e.id.course_head@,
                                        crate::falseness::collision_transposition(
                                            crate::layout::spec_segment_row(layout, segi, k1),
                                            #[trigger] crate::layout::spec_segment_row(
                                                layout,
                                                segi,
                                                k2,
                                            ),
                                        ),
                                    ),
                                    x,
                                    rot,
                                ) && x == e.id.course_head@ implies rot == 0 by {
                                let t = crate::falseness::collision_transposition(
                                    crate::layout::spec_segment_row(layout, segi, k1),
                                    crate::layout::spec_segment_row(layout, segi, k2),
                                );
                                assert(crate::falseness::table_has_entry(
                                    table.entries@,
                                    segi,
                                    segi,
                                    t,
                                ));
                                let eidx = choose|eidx: int|
                                    0 <= eidx < table.entries@.len() && (
                                    #[trigger] table.entries@[eidx]).seg1 == segi
                                        && table.entries@[eidx].seg2 == segi
                                        && table.entries@[eidx].transposition@ == t;
                                assert(crate::falseness::canon_is(
                                    part_heads@,
                                    seq_compose(
                                        e.id.course_head@,
                                        table.entries@[eidx].transposition@,
                                    ),
                                    x,
                                    rot,
                                ));
                            }
                        }
                    }
                }
                let ghost ends_before = end_chunks@;
                let ghost chunks_before = chunks@;
                if e.is_end {
                    end_chunks.push(e.id.duplicate());
                }
                chunks.push((e.id.duplicate(), chunk));
                proof {
                    // Every end chunk is recorded in the end list.
                    assert forall|a: int|
                        0 <= a < chunks@.len() && (#[trigger] chunks@[a]).1.is_end implies exists|
                        e2: int,
                    |
                        0 <= e2 < end_chunks@.len() && (#[trigger] end_chunks@[e2]).key()
                            == chunks@[a].0.key() by {
                        if a == chunks@.len() - 1 {
                            assert(end_chunks@[end_chunks@.len() - 1].key()
                                == chunks@[a].0.key());
                        } else {
                            let e3 = choose|e3: int|
                                0 <= e3 < ends_before.len() && (#[trigger] ends_before[e3]).key()
                                    == chunks@[a].0.key();
                            assert(end_chunks@[e3] == ends_before[e3]);
                        }
                    }
                    assert forall|a: int, b: int|
                        0 <= a < b < chunks@.len() implies (#[trigger] chunks@[a]).0.key() != (
                    #[trigger] chunks@[b]).0.key() by {
                        if b == chunks@.len() - 1 {
                            let e2 = choose|e2: int|
                                0 <= e2 < ei && (#[trigger] chunks@[a]).0.key() == (
                                #[trigger] expanded@[e2]).id.key();
                            assert(expanded@[e2].id.key() != expanded@[ei as int].id.key());
                        }
                    }
                }
            }
            ei += 1;
        }
        // Mirror every forward link with a predecessor entry.
        let ghost chunks0 = chunks@;
        let wired = wire_predecessors(chunks, num_parts);
        let g = Graph { chunks: wired, start_chunks, end_chunks, num_parts };
        proof {
            assert(g.linked());
            assert(g.keys_unique()) by {
                assert forall|a: int, b: int|
                    0 <= a < b < g.chunks@.len() implies (#[trigger] g.chunks@[a]).0.key() != (
                #[trigger] g.chunks@[b]).0.key() by {
                    assert(g.chunks@[a].0 == chunks0[a].0);
                    assert(g.chunks@[b].0 == chunks0[b].0);
                    assert(chunks0[a].0.key() != chunks0[b].0.key());
                }
            }
            assert(g.ids_wf()) by {
                assert forall|a: int|
                    0 <= a < g.chunks@.len() implies (#[trigger] g.chunks@[a]).0.wf() by {
                    assert(g.chunks@[a].0 == chunks0[a].0);
                }
                assert forall|a: int, si: int|
                    0 <= a < g.chunks@.len() && 0 <= si < g.chunks@[a].1.successors@.len() implies (
                #[trigger] g.chunks@[a].1.successors@[si]).rotation < g.num_parts
                    && g.chunks@[a].1.successors@[si].id.wf() by {
                    assert(g.chunks@[a].1.successors == chunks0[a].1.successors);
                }
            }
            if !allow_false {
                assert(g.self_false_included()) by {
                    assert forall|a: int| 0 <= a < g.chunks@.len() implies #[trigger] key_in_false_list(
                        g.chunks@[a].1.false_chunks@,
                        g.chunks@[a].0.key(),
                    ) by {
                        assert(g.chunks@[a].1.false_chunks == chunks0[a].1.false_chunks);
                        assert(g.chunks@[a].0 == chunks0[a].0);
                        assert(chunks0[a].1.false_chunks@.len() >= 1 && chunks0[a].1.false_chunks@[0].key()
                            == chunks0[a].0.key());
                        assert(g.chunks@[a].1.false_chunks@[0].key() == g.chunks@[a].0.key());
                    }
                }
                assert forall|a: int| 0 <= a < g.chunks@.len() implies seg_rows_distinct(
                    layout,
                    (#[trigger] g.chunks@[a]).0.seg as int,
                ) by {
                    assert(g.chunks@[a].0 == chunks0[a].0);
                }
                assert forall|a: int| 0 <= a < g.chunks@.len() implies true_in_other_parts(
                    layout,
                    part_heads@,
                    (#[trigger] g.chunks@[a]).0.course_head@,
                    g.chunks@[a].0.seg as int,
                ) by {
                    assert(g.chunks@[a].0 == chunks0[a].0);
                }
            }
            assert forall|a: int|
                0 <= a < g.chunks@.len() implies (#[trigger] g.chunks@[a]).1.total_length
                == g.chunks@[a].1.per_part_length * part_heads@.len() && g.chunks@[a].1.lb_distance_from_rounds
                + g.chunks@[a].1.total_length <= max_length && g.chunks@[a].1.lb_distance_to_rounds
                == 0 by {
                assert(g.chunks@[a].1.total_length == chunks0[a].1.total_length);
                assert(g.chunks@[a].1.per_part_length == chunks0[a].1.per_part_length);
                assert(g.chunks@[a].1.lb_distance_from_rounds
                    == chunks0[a].1.lb_distance_from_rounds);
                assert(g.chunks@[a].1.lb_distance_to_rounds == chunks0[a].1.lb_distance_to_rounds);
            }
            if stroke_dependent {
                assert forall|a: int|
                    0 <= a < g.chunks@.len() implies ((#[trigger] g.chunks@[a]).1.per_part_length
                    % 2 == 0 || g.chunks@[a].1.is_end) by {
                    assert(g.chunks@[a].1.per_part_length == chunks0[a].1.per_part_length);
                    assert(g.chunks@[a].1.is_end == chunks0[a].1.is_end);
                }
            }
            // Per-chunk content survives the predecessor wiring untouched.
            assert forall|a: int|
                0 <= a < g.chunks@.len() implies (#[trigger] g.chunks@[a]).1.method_counts@.len()
                == num_methods && (forall|m: int|
                0 <= m < num_methods ==> (#[trigger] g.chunks@[a].1.method_counts@[m]) == (if m
                    == seg_methods@[g.chunks@[a].0.seg as int] as int {
                    g.chunks@[a].1.total_length as int
                } else {
                    0
                })) by {
                assert(g.chunks@[a].1.method_counts == chunks0[a].1.method_counts);
                assert(g.chunks@[a].0 == chunks0[a].0);
                assert(g.chunks@[a].1.total_length == chunks0[a].1.total_length);
            }
            assert forall|a: int|
                0 <= a < g.chunks@.len() implies (#[trigger] g.chunks@[a]).1.music.counts@.len()
                == music_types@.len() && (g.chunks@[a].1.duffer == !(exists|t: int|
                0 <= t < music_types@.len() && (#[trigger] music_types@[t]).non_duffer
                    && g.chunks@[a].1.music.counts@[t] > 0)) by {
                assert(g.chunks@[a].1.music == chunks0[a].1.music);
                assert(g.chunks@[a].1.duffer == chunks0[a].1.duffer);
            }
            assert forall|a: int|
                0 <= a < g.chunks@.len() && (#[trigger] g.chunks@[a]).1.is_end implies exists|
                e2: int,
            |
                0 <= e2 < g.end_chunks@.len() && (#[trigger] g.end_chunks@[e2]).key()
                    == g.chunks@[a].0.key() by {
                assert(g.chunks@[a].1.is_end == chunks0[a].1.is_end);
                assert(chunks0[a].1.is_end);
                assert(g.chunks@[a].0 == chunks0[a].0);
                let e3 = choose|e3: int|
                    0 <= e3 < g.end_chunks@.len() && (#[trigger] g.end_chunks@[e3]).key()
                        == chunks0[a].0.key();
                assert(g.end_chunks@[e3].key() == g.chunks@[a].0.key());
            }
        }
        Ok(g)
    }
}

} // verus!
