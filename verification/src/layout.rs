//! A mid-level representation of the course layout of a composition: segments
//! of rows taken from blocks (usually plain courses), joined by links.

use vstd::prelude::*;
use crate::mod_add;
use crate::music::Mask;
use crate::row::Row;

verus! {

/// A newtyped integer which refers to a specific composition segment.
#[derive(PartialEq, Eq, Structural, Clone, Copy, Debug)]
pub struct SegmentId {
    pub idx: usize,
}

impl From<usize> for SegmentId {
    fn from(idx: usize) -> (r: Self) {
        SegmentId { idx }
    }
}

impl vstd::std_specs::convert::FromSpecImpl<usize> for SegmentId {
    open spec fn obeys_from_spec() -> bool {
        true
    }

    open spec fn from_spec(idx: usize) -> Self {
        SegmentId { idx }
    }
}

/// The range of rows covered by a segment, as a start index into a block and a
/// length.  The range may wrap around the end of the block.
#[derive(PartialEq, Eq, Structural, Clone, Copy, Debug)]
pub struct SegmentRange {
    pub start_idx: usize,
    pub length: usize,
}

/// Where a segment can sit within a composition.
#[derive(PartialEq, Eq, Structural, Clone, Copy, Debug)]
pub enum Position {
    Start,
    End,
    Central,
}

/// A link from one segment to another, possibly in a different course.
pub struct SegmentLink {
    pub display_name: String,
    pub debug_name: String,
    pub end_segment: SegmentId,
    pub transposition: Row,
}

/// A segment: a range of rows in some block, the links leaving it, and the
/// course-head masks it may be rung under.
pub struct Segment {
    pub row_range: (usize, SegmentRange),
    pub links: Vec<SegmentLink>,
    pub course_head_masks: Vec<Mask>,
    pub name: String,
    pub truncations: Vec<SegmentId>,
    pub position: Position,
}

impl Segment {
    /// Structural copy of a segment (its rows are shared data, not state).
    pub fn duplicate(&self) -> (r: Segment)
        ensures
            r.row_range == self.row_range,
            r.links@.len() == self.links@.len(),
            forall|i: int|
                0 <= i < self.links@.len() ==> (#[trigger] r.links@[i]).end_segment
                    == self.links@[i].end_segment && r.links@[i].transposition@
                    == self.links@[i].transposition@ && r.links@[i].transposition.wf()
                    == self.links@[i].transposition.wf(),
            r.course_head_masks@.len() == self.course_head_masks@.len(),
            forall|i: int|
                0 <= i < self.course_head_masks@.len() ==> (#[trigger] r.course_head_masks@[i]).slots@
                    == self.course_head_masks@[i].slots@,
            r.truncations@ == self.truncations@,
            r.position == self.position,
    {
        let mut links: Vec<SegmentLink> = Vec::new();
        let nl = self.links.len();
        for i in 0..nl
            invariant
                nl == self.links@.len(),
                links@.len() == i,
                forall|j: int|
                    0 <= j < i ==> (#[trigger] links@[j]).end_segment == self.links@[j].end_segment
                        && links@[j].transposition@ == self.links@[j].transposition@
                        && links@[j].transposition.wf() == self.links@[j].transposition.wf(),
        {
            let l = &self.links[i];
            links.push(
                SegmentLink {
                    display_name: l.display_name.clone(),
                    debug_name: l.debug_name.clone(),
                    end_segment: l.end_segment,
                    transposition: l.transposition.clone(),
                },
            );
        }
        let mut masks: Vec<Mask> = Vec::new();
        let nm = self.course_head_masks.len();
        for i in 0..nm
            invariant
                nm == self.course_head_masks@.len(),
                masks@.len() == i,
                forall|j: int|
                    0 <= j < i ==> (#[trigger] masks@[j]).slots@
                        == self.course_head_masks@[j].slots@,
        {
            masks.push(Mask { slots: self.course_head_masks[i].slots.clone() });
        }
        Segment {
            row_range: self.row_range,
            links,
            course_head_masks: masks,
            name: self.name.clone(),
            truncations: self.truncations.clone(),
            position: self.position,
        }
    }
}

/// A course layout: blocks of rows, segments over them, and the bells fixed
/// throughout the composition.
pub struct Layout {
    pub blocks: Vec<Vec<Row>>,
    pub segments: Vec<Segment>,
    pub fixed_bells: Vec<usize>,
}

/// The row a segment covers `k` rows after its start, wrapping around its block.
pub open spec fn spec_segment_row(l: &Layout, seg: int, k: int) -> Seq<usize> {
    let b = l.segments@[seg].row_range.0;
    let range = l.segments@[seg].row_range.1;
    let block = l.blocks@[b as int]@;
    block[(range.start_idx + k) % (block.len() as int)]@
}

impl Layout {
    /// Blocks are non-empty rows of one stage; segments point at real blocks;
    /// fixed bells are bells of that stage.
    pub open spec fn wf(&self) -> bool {
        &&& self.blocks@.len() >= 1
        &&& self.blocks@[0]@.len() >= 1
        &&& forall|b: int, i: int|
            0 <= b < self.blocks@.len() && 0 <= i < self.blocks@[b]@.len() ==> (
            #[trigger] self.blocks@[b]@[i]).wf() && self.blocks@[b]@[i]@.len() == self.spec_stage()
        &&& forall|b: int| 0 <= b < self.blocks@.len() ==> (#[trigger] self.blocks@[b])@.len() >= 1
        &&& forall|s: int|
            0 <= s < self.segments@.len() ==> (#[trigger] self.segments@[s]).row_range.0
                < self.blocks@.len()
        &&& forall|s: int, li: int|
            0 <= s < self.segments@.len() && 0 <= li < self.segments@[s].links@.len() ==> (
            #[trigger] self.segments@[s].links@[li]).transposition.wf()
                && self.segments@[s].links@[li].transposition@.len() == self.spec_stage()
                && self.segments@[s].links@[li].end_segment.idx < self.segments@.len()
        &&& forall|i: int|
            0 <= i < self.fixed_bells@.len() ==> (#[trigger] self.fixed_bells@[i])
                < self.spec_stage()
    }

    /// The stage of every row in the layout.
    pub open spec fn spec_stage(&self) -> nat {
        self.blocks@[0]@[0]@.len()
    }

    pub fn stage(&self) -> (r: usize)
        requires
            self.wf(),
        ensures
            r == self.spec_stage(),
    {
        self.blocks[0][0].stage()
    }

    /// The rows in the plain course of the segment at a given index.
    pub fn segment_rows(&self, segment_idx: usize) -> (r: Vec<Row>)
        requires
            self.wf(),
            segment_idx < self.segments@.len(),
        ensures
            r@.len() == self.segments@[segment_idx as int].row_range.1.length,
            forall|k: int|
                0 <= k < r@.len() ==> (#[trigger] r@[k])@ == spec_segment_row(
                    self,
                    segment_idx as int,
                    k,
                ) && r@[k].wf() && r@[k]@.len() == self.spec_stage(),
    {
        let (block_idx, range) = self.segments[segment_idx].row_range;
        let block = &self.blocks[block_idx];
        let block_len = block.len();
        let mut out: Vec<Row> = Vec::new();
        let n = range.length;
        for k in 0..n
            invariant
                self.wf(),
                segment_idx < self.segments@.len(),
                block_idx == self.segments@[segment_idx as int].row_range.0,
                range == self.segments@[segment_idx as int].row_range.1,
                block_len == self.blocks@[block_idx as int]@.len(),
                block_len >= 1,
                n == range.length,
                out@.len() == k,
                forall|j: int|
                    0 <= j < k ==> (#[trigger] out@[j])@ == spec_segment_row(
                        self,
                        segment_idx as int,
                        j,
                    ) && out@[j].wf() && out@[j]@.len() == self.spec_stage(),
        {
            let pos = mod_add(range.start_idx, k, block_len);
            out.push(self.blocks[block_idx][pos].clone());
        }
        out
    }

    /// Split a segment range in two at `split_idx` rows from its start.
    pub fn split_range(&self, block_idx: usize, range: SegmentRange, split_idx: usize) -> (r: (
        SegmentRange,
        SegmentRange,
    ))
        requires
            self.wf(),
            block_idx < self.blocks@.len(),
            split_idx <= range.length,
        ensures
            r.0.start_idx == range.start_idx,
            r.0.length == split_idx,
            r.1.start_idx == (range.start_idx + split_idx) % (
            self.blocks@[block_idx as int]@.len() as int),
            r.1.length == range.length - split_idx,
    {
        let block_len = self.blocks[block_idx].len();
        (
            SegmentRange { start_idx: range.start_idx, length: split_idx },
            SegmentRange {
                start_idx: mod_add(range.start_idx, split_idx, block_len),
                length: range.length - split_idx,
            },
        )
    }

    /// Whether the fixed bells all sit in their home places in this row.
    pub open spec fn spec_fixed_bells_home(&self, row: Seq<usize>) -> bool {
        forall|f: int|
            0 <= f < self.fixed_bells@.len() ==> row[(#[trigger] self.fixed_bells@[f]) as int]
                == self.fixed_bells@[f]
    }

    /// Find every location where rounds can occur (all fixed bells at home) and
    /// split the owning segment there into a start segment and an end segment.
    /// Returns `false` exactly when no such location exists, in which case the
    /// layout is unchanged.
    pub fn generate_starts_and_end_nodes(&mut self) -> (r: bool)
        requires
            old(self).wf(),
        ensures
            final(self).wf(),
            final(self).blocks@ == old(self).blocks@,
            final(self).fixed_bells@ == old(self).fixed_bells@,
            final(self).segments@.len() >= old(self).segments@.len(),
            r == (final(self).segments@.len() > old(self).segments@.len()),
            !r ==> final(self).segments@ == old(self).segments@,
            !r ==> forall|s: int, k: int|
                0 <= s < old(self).segments@.len() && 0 <= k < old(self).segments@[s].row_range.1.length ==> !old(self).spec_fixed_bells_home(
                    #[trigger] spec_segment_row(old(self), s, k),
                ),
            forall|s: int|
                0 <= s < old(self).segments@.len() ==> (#[trigger] final(self).segments@[s]).row_range
                    == old(self).segments@[s].row_range && final(self).segments@[s].links@ == old(self).segments@[s].links@ && final(self).segments@[s].position == old(self).segments@[s].position,
            forall|s: int|
                old(self).segments@.len() <= s < final(self).segments@.len() ==> ((
                #[trigger] final(self).segments@[s]).position is Start
                    || final(self).segments@[s].position is End) && (final(self).segments@[s].position is End ==> final(self).segments@[s].links@.len() == 0),
    {
        let ghost old_self = *self;
        let num_segments = self.segments.len();
        let mut new_segments: Vec<(Option<usize>, Segment)> = Vec::new();
        let num_fixed = self.fixed_bells.len();
        let mut found = false;
        let mut seg_idx: usize = 0;
        while seg_idx < num_segments
            invariant
                self.wf(),
                *self == old_self,
                num_segments == self.segments@.len(),
                num_fixed == self.fixed_bells@.len(),
                seg_idx <= num_segments,
                found == (new_segments@.len() > 0),
                forall|p: int|
                    0 <= p < new_segments@.len() ==> ((#[trigger] new_segments@[p]).1.position
                        is Start || new_segments@[p].1.position is End) && (new_segments@[p].1.position
                        is End ==> new_segments@[p].1.links@.len() == 0) && (
                    new_segments@[p].0 matches Some(t) ==> t < num_segments)
                        && new_segments@[p].1.row_range.0 < self.blocks@.len(),
                forall|p: int, li: int|
                    0 <= p < new_segments@.len() && 0 <= li < new_segments@[p].1.links@.len()
                        ==> (#[trigger] new_segments@[p].1.links@[li]).transposition.wf()
                        && new_segments@[p].1.links@[li].transposition@.len() == self.spec_stage()
                        && new_segments@[p].1.links@[li].end_segment.idx < num_segments,
                !found ==> forall|s: int, k: int|
                    0 <= s < seg_idx && 0 <= k < self.segments@[s].row_range.1.length
                        ==> !self.spec_fixed_bells_home(#[trigger] spec_segment_row(self, s, k)),
            decreases num_segments - seg_idx,
        {
            let rows = self.segment_rows(seg_idx);
            let num_rows = rows.len();
            let mut row_idx: usize = 0;
            while row_idx < num_rows
                invariant
                    self.wf(),
                    *self == old_self,
                    num_segments == self.segments@.len(),
                    num_fixed == self.fixed_bells@.len(),
                    seg_idx < num_segments,
                    num_rows == self.segments@[seg_idx as int].row_range.1.length,
                    rows@.len() == num_rows,
                    forall|k: int|
                        0 <= k < num_rows ==> (#[trigger] rows@[k])@ == spec_segment_row(
                            self,
                            seg_idx as int,
                            k,
                        ) && rows@[k].wf() && rows@[k]@.len() == self.spec_stage(),
                    row_idx <= num_rows,
                    found == (new_segments@.len() > 0),
                    forall|p: int|
                        0 <= p < new_segments@.len() ==> ((#[trigger] new_segments@[p]).1.position
                            is Start || new_segments@[p].1.position is End) && (
                        new_segments@[p].1.position is End ==> new_segments@[p].1.links@.len()
                            == 0) && (new_segments@[p].0 matches Some(t) ==> t < num_segments)
                            && new_segments@[p].1.row_range.0 < self.blocks@.len(),
                    forall|p: int, li: int|
                        0 <= p < new_segments@.len() && 0 <= li < new_segments@[p].1.links@.len()
                            ==> (#[trigger] new_segments@[p].1.links@[li]).transposition.wf()
                            && new_segments@[p].1.links@[li].transposition@.len()
                            == self.spec_stage() && new_segments@[p].1.links@[li].end_segment.idx
                            < num_segments,
                    !found ==> forall|s: int, k: int|
                        0 <= s < seg_idx && 0 <= k < self.segments@[s].row_range.1.length
                            ==> !self.spec_fixed_bells_home(
                            #[trigger] spec_segment_row(self, s, k),
                        ),
                    !found ==> forall|k: int|
                        0 <= k < row_idx ==> !self.spec_fixed_bells_home(
                            #[trigger] spec_segment_row(self, seg_idx as int, k),
                        ),
                decreases num_rows - row_idx,
            {
                let r = &rows[row_idx];
                // Check that the fixed bells are all in their home positions.
                let mut all_home = true;
                let mut f: usize = 0;
                while f < num_fixed
                    invariant
                        self.wf(),
                        num_fixed == self.fixed_bells@.len(),
                        r.wf(),
                        r@.len() == self.spec_stage(),
                        f <= num_fixed,
                        all_home == (forall|g: int|
                            0 <= g < f ==> r@[(#[trigger] self.fixed_bells@[g]) as int]
                                == self.fixed_bells@[g]),
                    decreases num_fixed - f,
                {
                    let fb = self.fixed_bells[f];
                    if r.bell_at(fb) != fb {
                        all_home = false;
                    }
                    f += 1;
                }
                if all_home {
                    // Rounds can occur here; the course head that would contain
                    // rounds is the inverse of this row.
                    let course_head_containing_rounds = r.inv();
                    let s = &self.segments[seg_idx];
                    let (block_idx, row_range) = s.row_range;
                    let (end_seg_range, start_seg_range) = self.split_range(
                        block_idx,
                        row_range,
                        row_idx,
                    );
                    let s = &self.segments[seg_idx];
                    // Start segment: begins at rounds and rings the rest.
                    let mut start_seg = s.duplicate();
                    start_seg.row_range = (block_idx, start_seg_range);
                    start_seg.position = Position::Start;
                    let mut start_masks: Vec<Mask> = Vec::new();
                    start_masks.push(Mask::full_row(&course_head_containing_rounds));
                    start_seg.course_head_masks = start_masks;
                    new_segments.push((None, start_seg));
                    // End segment: the run-up to rounds, leading nowhere.
                    let mut end_seg = s.duplicate();
                    end_seg.row_range = (block_idx, end_seg_range);
                    end_seg.position = Position::End;
                    let mut end_masks: Vec<Mask> = Vec::new();
                    end_masks.push(Mask::full_row(&course_head_containing_rounds));
                    end_seg.course_head_masks = end_masks;
                    end_seg.links = Vec::new();
                    end_seg.truncations = Vec::new();
                    new_segments.push((Some(seg_idx), end_seg));
                    found = true;
                }
                row_idx += 1;
            }
            seg_idx += 1;
        }
        if !found {
            return false;
        }
        // Add the new segments, telling each truncated parent about its end.
        let num_new = new_segments.len();
        let mut p: usize = 0;
        while p < num_new
            invariant
                new_segments@.len() == num_new - p,
                num_new > 0,
                p <= num_new,
                self.wf(),
                self.blocks@ == old_self.blocks@,
                self.fixed_bells@ == old_self.fixed_bells@,
                num_segments == old_self.segments@.len(),
                self.segments@.len() == num_segments + p,
                forall|q: int|
                    0 <= q < new_segments@.len() ==> ((#[trigger] new_segments@[q]).1.position
                        is Start || new_segments@[q].1.position is End) && (new_segments@[q].1.position
                        is End ==> new_segments@[q].1.links@.len() == 0) && (new_segments@[q].0 matches Some(
                        t,
                    ) ==> t < num_segments) && new_segments@[q].1.row_range.0
                        < self.blocks@.len(),
                forall|q: int, li: int|
                    0 <= q < new_segments@.len() && 0 <= li < new_segments@[q].1.links@.len()
                        ==> (#[trigger] new_segments@[q].1.links@[li]).transposition.wf()
                        && new_segments@[q].1.links@[li].transposition@.len() == self.spec_stage()
                        && new_segments@[q].1.links@[li].end_segment.idx < num_segments,
                forall|s: int|
                    0 <= s < num_segments ==> (#[trigger] self.segments@[s]).row_range
                        == old_self.segments@[s].row_range && self.segments@[s].links@
                        == old_self.segments@[s].links@ && self.segments@[s].position
                        == old_self.segments@[s].position,
                forall|s: int|
                    num_segments <= s < self.segments@.len() ==> ((
                    #[trigger] self.segments@[s]).position is Start || self.segments@[s].position
                        is End) && (self.segments@[s].position is End ==> self.segments@[s].links@.len()
                        == 0),
            decreases num_new - p,
        {
            let new_seg_id = self.segments.len();
            let (truncation_parent, new_seg) = new_segments.remove(0);
            match truncation_parent {
                Some(parent) => {
                    let mut parent_seg = self.segments.remove(parent);
                    parent_seg.truncations.push(SegmentId { idx: new_seg_id });
                    self.segments.insert(parent, parent_seg);
                },
                None => {},
            }
            self.segments.push(new_seg);
            p += 1;
        }
        true
    }
}

} // verus!

verus! {

/// A compact representation of a call as it appears in a composition string:
/// an optional call symbol and the calling position reached.
#[derive(PartialEq, Eq, Structural, Clone, Copy, Debug)]
pub struct Call {
    pub call: Option<char>,
    pub position: char,
}

impl Call {
    pub fn new(call: Option<char>, position: char) -> (r: Call)
        ensures
            r.call == call,
            r.position == position,
    {
        Call { call, position }
    }
}

/// A section of a course of a single method, identified by its index.
#[derive(PartialEq, Eq, Structural, Clone, Copy, Debug)]
pub struct Section {
    pub ind: usize,
}

impl Section {
    pub fn new(ind: usize) -> (r: Section)
        ensures
            r.ind == ind,
    {
        Section { ind }
    }
}

} // verus!
