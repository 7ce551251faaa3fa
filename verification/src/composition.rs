//! Compositions: a path of chunks through the graph, reconstructed into the
//! full block of rows and a human-readable call string.

use vstd::prelude::*;
use crate::block::{Block, seq_compose, solve_xa_eq_b, lemma_solve_xa_eq_b};
use crate::method::Method;
use crate::query::Call;
use crate::row::Row;

verus! {

/// One piece of a composition: a run of one method from a sub-lead index,
/// possibly ending in a call.
pub struct PathElem {
    pub start_row: Row,
    pub method: usize,
    pub start_sub_lead_idx: usize,
    pub length: usize,
    pub call: Option<usize>,
}

impl PathElem {
    /// Whether this piece ends with a plain lead end rather than a call.
    pub fn ends_with_plain(&self) -> (r: bool)
        ensures
            r == (self.call is None),
    {
        self.call.is_none()
    }

    /// The sub-lead index reached at the end of this piece.
    pub fn end_sub_lead_idx(&self, methods: &Vec<Method>) -> (r: usize)
        requires
            self.method < methods@.len(),
            methods@[self.method as int].wf(),
        ensures
            r == (self.start_sub_lead_idx + self.length) % (
            methods@[self.method as int].spec_lead_len() as int),
    {
        methods[self.method].add_sub_lead_idx(self.start_sub_lead_idx, self.length)
    }
}

/// A composition: its path, part head rotation, length, per-method row
/// counts, music counts and total score.
pub struct Composition {
    pub path: Vec<PathElem>,
    pub part_head: usize,
    pub length: usize,
    pub method_counts: Vec<usize>,
    pub music_counts: Vec<usize>,
    pub total_score: i64,
}

impl Composition {
    /// The number of rows in this composition.
    pub fn length(&self) -> (r: usize)
        ensures
            r == self.length,
    {
        self.length
    }

    /// The total score accumulated from music, calls and weights.
    pub fn total_score(&self) -> (r: i64)
        ensures
            r == self.total_score,
    {
        self.total_score
    }

    /// The number of rows of each method.
    pub fn method_counts(&self) -> (r: &Vec<usize>)
        ensures
            r == self.method_counts,
    {
        &self.method_counts
    }

    /// The number of occurrences of each music type.
    pub fn music_counts(&self) -> (r: &Vec<usize>)
        ensures
            r == self.music_counts,
    {
        &self.music_counts
    }

    /// Reconstruct the full block of rows: walk the path copying ranges of
    /// each method's plain course, adjust the left-over row at each call, and
    /// extend to every part.  Returns `Some` exactly when the path stitches
    /// together: then the block starts at `start_row`, leaves `end_row` over,
    /// and has exactly this composition's length, with each row annotated by
    /// its method and sub-lead index.
    #[verifier::loop_isolation(false)]
    pub fn rows(
        &self,
        methods: &Vec<Method>,
        calls: &Vec<Call>,
        start_row: &Row,
        end_row: &Row,
        num_parts: usize,
    ) -> (r: Option<Block<(usize, usize)>>)
        requires
            start_row.wf(),
            end_row.wf(),
            start_row@.len() == end_row@.len(),
            forall|m: int| 0 <= m < methods@.len() ==> (#[trigger] methods@[m]).wf(),
            forall|c: int|
                0 <= c < calls@.len() ==> (#[trigger] calls@[c]).place_notation.wf()
                    && calls@[c].place_notation.spec_stage() == start_row@.len(),
            num_parts >= 1,
        ensures
            match r {
                Some(b) => {
                    &&& b.wf()
                    &&& b.spec_len() == self.length
                    &&& b.spec_len() > 0
                    &&& b.rows@[0]@ == start_row@
                    &&& b.spec_leftover() == end_row@
                },
                None => true,
            },
    {
        let stage = start_row.stage();
        let mut block: Block<(usize, usize)> = Block::with_leftover_row(start_row.clone());
        let num_elems = self.path.len();
        let mut e: usize = 0;
        while e < num_elems
            invariant
                start_row.wf(),
                stage == start_row@.len(),
                forall|m: int| 0 <= m < methods@.len() ==> (#[trigger] methods@[m]).wf(),
                num_elems == self.path@.len(),
                e <= num_elems,
                block.wf(),
                block.spec_stage() == stage,
                block.spec_len() > 0 ==> block.rows@[0]@ == start_row@,
                block.spec_len() == 0 ==> block.spec_leftover() == start_row@,
            decreases num_elems - e,
        {
            let elem = &self.path[e];
            if elem.method >= methods.len() {
                return None;
            }
            if elem.length == 0 {
                return None;
            }
            let method = &methods[elem.method];
            let pc = match method.plain_course() {
                Some(pc) => pc,
                None => {
                    return None;
                },
            };
            if pc.stage() != stage {
                return None;
            }
            // The path must stitch: this piece starts at the current left-over
            // row.
            if !block.leftover_row().eq(&elem.start_row) {
                return None;
            }
            let pc_len = pc.len();
            if elem.start_sub_lead_idx >= pc_len {
                return None;
            }
            let start_idx = elem.start_sub_lead_idx;
            let end_idx = match start_idx.checked_add(elem.length) {
                Some(v) => v,
                None => {
                    return None;
                },
            };
            // Annotate the plain course with this element's method.
            let pc_rows_len = pc.rows.len();
            let mut annot_pc: Block<(usize, usize)> = Block {
                rows: pc.rows,
                annots: Vec::new(),
            };
            let mut ai: usize = 0;
            while ai < pc_len
                invariant
                    pc_len + 1 == pc_rows_len,
                    annot_pc.rows@.len() == pc_rows_len,
                    forall|k: int|
                        0 <= k < annot_pc.rows@.len() ==> (#[trigger] annot_pc.rows@[k]).wf()
                            && annot_pc.rows@[k]@.len() == stage,
                    ai <= pc_len,
                    annot_pc.annots@.len() == ai,
                decreases pc_len - ai,
            {
                annot_pc.annots.push((elem.method, ai % pc_len));
                ai += 1;
            }
            let ghost block_before = block;
            if end_idx > pc_len {
                // The piece wraps over the course head: copy it in two parts.
                if end_idx - pc_len > pc_len {
                    return None;
                }
                block.extend_range(&annot_pc, start_idx, pc_len);
                proof {
                    lemma_first_row_after_extend(
                        &block_before,
                        &block,
                        &annot_pc,
                        start_idx as int,
                        pc_len as int,
                        start_row@,
                    );
                }
                let ghost block_mid = block;
                block.extend_range(&annot_pc, 0, end_idx - pc_len);
                proof {
                    lemma_first_row_after_extend(
                        &block_mid,
                        &block,
                        &annot_pc,
                        0,
                        (end_idx - pc_len) as int,
                        start_row@,
                    );
                }
            } else {
                block.extend_range(&annot_pc, start_idx, end_idx);
                proof {
                    lemma_first_row_after_extend(
                        &block_before,
                        &block,
                        &annot_pc,
                        start_idx as int,
                        end_idx as int,
                        start_row@,
                    );
                }
            }
            // A call changes the left-over row.
            match elem.call {
                Some(call_idx) => {
                    if call_idx >= calls.len() {
                        return None;
                    }
                    let call = &calls[call_idx];
                    let last = block.len();
                    if last == 0 {
                        return None;
                    }
                    let last_row = match block.get_row(last - 1) {
                        Some(row) => row.clone(),
                        None => {
                            return None;
                        },
                    };
                    let new_leftover = last_row.mul(call.place_notation.transposition());
                    block.set_leftover_row(new_leftover);
                },
                None => {},
            }
            e += 1;
        }
        // Extend the first part to every part.
        let part_len = block.len();
        if part_len == 0 {
            return None;
        }
        let mut p: usize = 1;
        while p < num_parts
            invariant
                block.wf(),
                block.spec_stage() == stage,
                block.spec_len() >= part_len,
                part_len >= 1,
                block.rows@[0]@ == start_row@,
                start_row.wf(),
                stage == start_row@.len(),
                p <= num_parts,
            decreases num_parts - p,
        {
            block.extend_from_within(0, part_len);
            p += 1;
        }
        // The reconstruction must agree with the composition's own length and
        // the requested end row.
        if block.len() != self.length {
            return None;
        }
        if !block.leftover_row().eq(end_row) {
            return None;
        }
        Some(block)
    }
}

/// After extending a block, its first row is unchanged, or — when the block
/// held no rows — it becomes the old left-over row, which the extension
/// transposed the source's first copied row onto.
proof fn lemma_first_row_after_extend(
    before: &Block<(usize, usize)>,
    after: &Block<(usize, usize)>,
    other: &Block<(usize, usize)>,
    start: int,
    end: int,
    start_row: Seq<usize>,
)
    requires
        before.wf(),
        other.wf(),
        other.spec_stage() == before.spec_stage(),
        0 <= start <= end,
        end <= other.spec_len(),
        before.spec_len() > 0 ==> before.rows@[0]@ == start_row,
        before.spec_len() == 0 ==> before.spec_leftover() == start_row,
        start_row.len() == before.spec_stage(),
        after.rows@.len() == before.rows@.len() + (end - start),
        forall|j: int|
            0 <= j < before.rows@.len() - 1 ==> (#[trigger] after.rows@[j])@ == before.rows@[j]@,
        forall|k: int|
            0 <= k <= end - start ==> (#[trigger] after.rows@[before.rows@.len() - 1 + k])@
                == seq_compose(
                solve_xa_eq_b(other.rows@[start]@, before.spec_leftover()),
                other.rows@[start + k]@,
            ),
        after.spec_len() == before.spec_len() + (end - start),
    ensures
        after.spec_len() > 0 ==> after.rows@[0]@ == start_row,
        after.spec_len() == 0 ==> after.spec_leftover() == start_row,
{
    if before.spec_len() > 0 {
        assert(after.rows@[0]@ == before.rows@[0]@);
    } else {
        // The block held only its left-over row; the first copied row lands on
        // it exactly.
        let a = other.rows@[start]@;
        let b = before.spec_leftover();
        let ghost arow = other.rows@[start];
        arow.lemma_view_len();
        lemma_solve_xa_eq_b(a, b);
        let k0: int = 0;
        assert(after.rows@[before.rows@.len() - 1 + k0]@ == seq_compose(
            solve_xa_eq_b(a, b),
            other.rows@[start + k0]@,
        ));
        assert(seq_compose(solve_xa_eq_b(a, b), a) =~= b);
        if after.spec_len() > 0 {
            assert(after.rows@[0]@ == b);
        } else {
            assert(after.rows@.len() == 1);
            assert(after.spec_leftover() == after.rows@[0]@);
        }
    }
}

} // verus!

verus! {

impl Composition {
    /// A human-readable summary of the calling: method shorthands for every
    /// lead covered when spliced, call symbols with calling positions, and
    /// snap-start/finish markers.  `None` if the path refers to a method or
    /// call that does not exist, or is empty.
    pub fn call_string(
        &self,
        methods: &Vec<Method>,
        shorthands: &Vec<String>,
        calls: &Vec<Call>,
        spliced: bool,
        positional: bool,
        part_head_row: &Row,
        calling_bell: usize,
    ) -> (r: Option<String>)
        requires
            part_head_row.wf(),
            calling_bell < part_head_row@.len(),
            forall|m: int| 0 <= m < methods@.len() ==> (#[trigger] methods@[m]).wf(),
            shorthands@.len() == methods@.len(),
        ensures
            self.path@.len() == 0 ==> r is None,
    {
        proof {
            reveal_strlit("#");
            reveal_strlit("<");
            reveal_strlit(">");
            reveal_strlit("[");
            reveal_strlit("]");
        }
        let needs_brackets = spliced || positional;
        let num_elems = self.path.len();
        if num_elems == 0 {
            return None;
        }
        let stage = part_head_row.stage();
        let is_snap_start = self.path[0].start_sub_lead_idx > 0;
        let last = &self.path[num_elems - 1];
        if last.method >= methods.len() {
            return None;
        }
        let is_snap_finish = last.end_sub_lead_idx(methods) > 0;
        let mut s = String::new();
        if positional {
            s.append("#");
        }
        if is_snap_start {
            s.append("<");
        }
        let mut e: usize = 0;
        while e < num_elems
            invariant
                part_head_row.wf(),
                calling_bell < part_head_row@.len(),
                stage == part_head_row@.len(),
                forall|m: int| 0 <= m < methods@.len() ==> (#[trigger] methods@[m]).wf(),
                shorthands@.len() == methods@.len(),
                num_elems == self.path@.len(),
                e <= num_elems,
            decreases num_elems - e,
        {
            let elem = &self.path[e];
            if elem.method >= methods.len() {
                return None;
            }
            if elem.length == 0 {
                return None;
            }
            // One shorthand per lead covered, when methods are displayed.
            if spliced || positional {
                let lead_len = methods[elem.method].lead_len();
                if elem.start_sub_lead_idx >= lead_len {
                    return None;
                }
                let n_leads = crate::num_leads_covered(
                    lead_len,
                    elem.start_sub_lead_idx,
                    elem.length,
                );
                let shorthand = shorthands[elem.method].clone();
                let mut l: usize = 0;
                while l < n_leads
                    invariant
                        l <= n_leads,
                    decreases n_leads - l,
                {
                    s.append(shorthand.as_str());
                    l += 1;
                }
            }
            match elem.call {
                Some(call_idx) => {
                    if call_idx >= calls.len() {
                        return None;
                    }
                    let call = &calls[call_idx];
                    if needs_brackets {
                        s.append("[");
                    }
                    if positional {
                        s.append(call.debug_symbol.as_str());
                    } else {
                        // The calling position comes from the row after the
                        // call: the next piece's start row, or the part head.
                        let row_after: &Row = if e + 1 < num_elems {
                            &self.path[e + 1].start_row
                        } else {
                            part_head_row
                        };
                        if !row_after.check_wf() {
                            return None;
                        }
                        if row_after.stage() != stage {
                            return None;
                        }
                        let place = row_after.place_of(calling_bell);
                        if place >= call.calling_positions.len() {
                            return None;
                        }
                        s.append(call.display_symbol.as_str());
                        s.append(call.calling_positions[place].as_str());
                    }
                    if needs_brackets {
                        s.append("]");
                    }
                },
                None => {},
            }
            e += 1;
        }
        if is_snap_finish {
            s.append(">");
        }
        Some(s)
    }
}

/// Format an optional inclusive range as an inequality around a name, or as
/// an equality when both ends agree.
pub fn write_range(name: &str, min: Option<usize>, max: Option<usize>) -> (r: String)
    ensures
        (min matches Some(lo) && max matches Some(hi) && lo == hi) ==> r@ == name@ + seq![
            ' ',
            '=',
            '=',
            ' ',
        ] + crate::spec_decimal(spec_opt_val(min)),
{
    proof {
        reveal_strlit(" <= ");
        reveal_strlit(" == ");
    }
    match (min, max) {
        (Some(lo), Some(hi)) => {
            if lo == hi {
                // Written as an equality: `name == value`.
                let s = String::new();
                let s = s.concat(name);
                let mut s = s.concat(" == ");
                let v = crate::usize_to_string(lo);
                let r = s.concat(v.as_str());
                proof {
                    assert(" == "@ =~= seq![' ', '=', '=', ' ']);
                    assert(r@ =~= name@ + seq![' ', '=', '=', ' '] + crate::spec_decimal(
                        lo as nat,
                    ));
                }
                r
            } else {
                let s = crate::usize_to_string(lo);
                let s = s.concat(" <= ");
                let mut s = s.concat(name);
                s.append(" <= ");
                let hi_s = crate::usize_to_string(hi);
                s.concat(hi_s.as_str())
            }
        },
        (Some(lo), None) => {
            let s = crate::usize_to_string(lo);
            let s = s.concat(" <= ");
            s.concat(name)
        },
        (None, Some(hi)) => {
            let s = String::new();
            let mut s = s.concat(name);
            s.append(" <= ");
            let hi_s = crate::usize_to_string(hi);
            s.concat(hi_s.as_str())
        },
        (None, None) => {
            let s = String::new();
            s.concat(name)
        },
    }
}

/// The value under a `Some`.
pub open spec fn spec_opt_val(o: Option<usize>) -> nat {
    match o {
        Some(v) => v as nat,
        None => 0,
    }
}

} // verus!
