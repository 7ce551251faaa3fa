//! Falseness: which pairs of segments share rows under which course-head
//! transposition, and canonical course heads under the part-head group.

use vstd::prelude::*;
use crate::layout::{Layout, spec_segment_row};
use crate::row::{Row, is_row_seq};
use crate::block::{seq_compose, seq_inv, lemma_solve_xa_eq_b};

verus! {

/// Lexicographic order on two rows of one length.
pub open spec fn lex_le(a: Seq<usize>, b: Seq<usize>) -> bool {
    a == b || exists|i: int|
        0 <= i < a.len() && a[i] < b[i] && (forall|j: int| 0 <= j < i ==> a[j] == b[j])
}

/// Lexicographic order is transitive.
pub proof fn lemma_lex_le_trans(a: Seq<usize>, b: Seq<usize>, c: Seq<usize>)
    requires
        a.len() == b.len(),
        b.len() == c.len(),
        lex_le(a, b),
        lex_le(b, c),
    ensures
        lex_le(a, c),
{
    if a == b || b == c {
    } else {
        let i1 = choose|i: int|
            0 <= i < a.len() && a[i] < b[i] && (forall|j: int| 0 <= j < i ==> a[j] == b[j]);
        let i2 = choose|i: int|
            0 <= i < b.len() && b[i] < c[i] && (forall|j: int| 0 <= j < i ==> b[j] == c[j]);
        if i1 < i2 {
            assert(a[i1] < c[i1] && (forall|j: int| 0 <= j < i1 ==> a[j] == c[j]));
        } else if i2 < i1 {
            assert(a[i2] < c[i2] && (forall|j: int| 0 <= j < i2 ==> a[j] == c[j]));
        } else {
            assert(a[i1] < c[i1] && (forall|j: int| 0 <= j < i1 ==> a[j] == c[j]));
        }
    }
}

/// Compare two rows lexicographically.
pub fn row_lex_le(a: &Row, b: &Row) -> (r: bool)
    requires
        a@.len() == b@.len(),
    ensures
        r == lex_le(a@, b@),
{
    let n = a.stage();
    for i in 0..n
        invariant
            n == a@.len(),
            n == b@.len(),
            forall|j: int| 0 <= j < i ==> a@[j] == b@[j],
    {
        if a.bell_at(i) < b.bell_at(i) {
            return true;
        }
        if a.bell_at(i) > b.bell_at(i) {
            proof {
                if lex_le(a@, b@) {
                    if a@ == b@ {
                        assert(false);
                    } else {
                        let w = choose|w: int|
                            0 <= w < a@.len() && a@[w] < b@[w] && (forall|j: int|
                                0 <= j < w ==> a@[j] == b@[j]);
                        if w < i {
                            assert(a@[w] == b@[w]);
                        }
                        if w == i {
                            assert(false);
                        }
                        if w > i {
                            assert(a@[i as int] == b@[i as int]);
                        }
                    }
                }
            }
            return false;
        }
    }
    proof {
        assert(a@ =~= b@);
    }
    true
}

/// The canonical representative of the orbit of `y` under the part heads is
/// `x`, first attained at rotation `rot`: `x` is the lexicographically least
/// member of the orbit, and no earlier rotation reaches it.
pub open spec fn canon_is(phs: Seq<Row>, y: Seq<usize>, x: Seq<usize>, rot: int) -> bool {
    &&& 0 <= rot < phs.len()
    &&& x == seq_compose(phs[rot]@, y)
    &&& forall|g: int| 0 <= g < phs.len() ==> lex_le(x, #[trigger] seq_compose(phs[g]@, y))
    &&& forall|g: int| 0 <= g < rot ==> seq_compose(phs[g]@, y) != x
}

/// The canonical representative and first rotation are unique.
pub proof fn lemma_canon_unique(
    phs: Seq<Row>,
    y: Seq<usize>,
    x1: Seq<usize>,
    r1: int,
    x2: Seq<usize>,
    r2: int,
)
    requires
        forall|g: int| 0 <= g < phs.len() ==> (#[trigger] phs[g])@.len() == y.len(),
        canon_is(phs, y, x1, r1),
        canon_is(phs, y, x2, r2),
    ensures
        x1 == x2,
        r1 == r2,
{
    assert(x1.len() == y.len());
    assert(x2.len() == y.len());
    assert(lex_le(x1, x2)) by {
        assert(lex_le(x1, seq_compose(phs[r2]@, y)));
    }
    assert(lex_le(x2, x1)) by {
        assert(lex_le(x2, seq_compose(phs[r1]@, y)));
    }
    lemma_lex_antisym(x1, x2);
    if r1 < r2 {
        assert(seq_compose(phs[r1]@, y) != x2);
        assert(seq_compose(phs[r1]@, y) == x1);
    }
    if r2 < r1 {
        assert(seq_compose(phs[r2]@, y) != x1);
        assert(seq_compose(phs[r2]@, y) == x2);
    }
}

/// Lexicographic order is antisymmetric.
pub proof fn lemma_lex_antisym(a: Seq<usize>, b: Seq<usize>)
    requires
        a.len() == b.len(),
        lex_le(a, b),
        lex_le(b, a),
    ensures
        a == b,
{
    if a != b {
        let i1 = choose|i: int|
            0 <= i < a.len() && a[i] < b[i] && (forall|j: int| 0 <= j < i ==> a[j] == b[j]);
        let i2 = choose|i: int|
            0 <= i < b.len() && b[i] < a[i] && (forall|j: int| 0 <= j < i ==> b[j] == a[j]);
        if i1 < i2 {
            assert(b[i1] == a[i1]);
        } else if i2 < i1 {
            assert(a[i2] == b[i2]);
        }
    }
}

/// Given the part heads (the cyclic group generated by the part head), the
/// canonical representative of a course head is the lexicographically least
/// member of its orbit, together with the first rotation reaching it.
pub fn canonical_course_head(part_heads: &Vec<Row>, ch: &Row) -> (r: (Row, usize))
    requires
        part_heads@.len() >= 1,
        ch.wf(),
        forall|g: int|
            0 <= g < part_heads@.len() ==> (#[trigger] part_heads@[g]).wf()
                && part_heads@[g]@.len() == ch@.len(),
    ensures
        r.1 < part_heads@.len(),
        r.0.wf(),
        r.0@ == seq_compose(part_heads@[r.1 as int]@, ch@),
        forall|g: int|
            0 <= g < part_heads@.len() ==> lex_le(
                r.0@,
                #[trigger] seq_compose(part_heads@[g]@, ch@),
            ),
        canon_is(part_heads@, ch@, r.0@, r.1 as int),
{
    let n = part_heads.len();
    let mut best = part_heads[0].mul(ch);
    let mut best_g: usize = 0;
    proof {
        assert(best@ =~= seq_compose(part_heads@[0]@, ch@));
    }
    for g in 1..n
        invariant
            n == part_heads@.len(),
            ch.wf(),
            forall|g2: int|
                0 <= g2 < part_heads@.len() ==> (#[trigger] part_heads@[g2]).wf()
                    && part_heads@[g2]@.len() == ch@.len(),
            best_g < n,
            best_g < g,
            best.wf(),
            best@.len() == ch@.len(),
            best@ == seq_compose(part_heads@[best_g as int]@, ch@),
            forall|g2: int|
                0 <= g2 < g ==> lex_le(best@, #[trigger] seq_compose(part_heads@[g2]@, ch@)),
            forall|g2: int| 0 <= g2 < best_g ==> seq_compose(part_heads@[g2]@, ch@) != best@,
    {
        let cand = part_heads[g].mul(ch);
        proof {
            assert(cand@ =~= seq_compose(part_heads@[g as int]@, ch@));
        }
        if !row_lex_le(&best, &cand) {
            proof {
                // Total order: if best is not <= cand, then cand <= best.
                lemma_lex_total(best@, cand@);
                let ghost old_best = best@;
                assert forall|g2: int| 0 <= g2 < g implies lex_le(
                    cand@,
                    #[trigger] seq_compose(part_heads@[g2]@, ch@),
                ) by {
                    lemma_lex_le_trans(cand@, old_best, seq_compose(part_heads@[g2]@, ch@));
                }
                // Nothing before `g` equals the new best: anything equal would
                // also be below the old best, which the old best's bound and
                // antisymmetry refute.
                assert forall|g2: int| 0 <= g2 < g implies seq_compose(part_heads@[g2]@, ch@)
                    != cand@ by {
                    if seq_compose(part_heads@[g2]@, ch@) == cand@ {
                        assert(lex_le(old_best, cand@));
                        lemma_lex_antisym(old_best, cand@);
                    }
                }
            }
            best = cand;
            best_g = g;
        }
        proof {
            assert(lex_le(best@, seq_compose(part_heads@[g as int]@, ch@))) by {
                if best_g == g {
                } else {
                    lemma_lex_total(best@, seq_compose(part_heads@[g as int]@, ch@));
                }
            }
        }
    }
    (best, best_g)
}

/// Lexicographic order is total: one of the two directions always holds.
pub proof fn lemma_lex_total(a: Seq<usize>, b: Seq<usize>)
    requires
        a.len() == b.len(),
    ensures
        lex_le(a, b) || lex_le(b, a),
{
    if a != b {
        assert(!(a =~= b));
        let w = min_diff_index(a, b, 0);
        lemma_min_diff(a, b, 0);
    }
}

/// The first index at or after `k` where two sequences differ.
pub open spec fn min_diff_index(a: Seq<usize>, b: Seq<usize>, k: int) -> int
    decreases a.len() - k,
{
    if k < 0 || k >= a.len() {
        a.len() as int
    } else if a[k] != b[k] {
        k
    } else {
        min_diff_index(a, b, k + 1)
    }
}

proof fn lemma_min_diff(a: Seq<usize>, b: Seq<usize>, k: int)
    requires
        a.len() == b.len(),
        0 <= k <= a.len(),
        forall|j: int| 0 <= j < k ==> a[j] == b[j],
        !(a =~= b),
    ensures
        lex_le(a, b) || lex_le(b, a),
    decreases a.len() - k,
{
    if k == a.len() {
        assert(a =~= b);
    } else if a[k] != b[k] {
        if a[k] < b[k] {
            assert(0 <= k < a.len() && a[k] < b[k] && (forall|j: int| 0 <= j < k ==> a[j] == b[j]));
        } else {
            assert(0 <= k < b.len() && b[k] < a[k] && (forall|j: int| 0 <= j < k ==> b[j] == a[j]));
        }
    } else {
        lemma_min_diff(a, b, k + 1);
    }
}

/// One falseness entry: ringing segment `seg2` in the course `ch * t` shares a
/// row with segment `seg1` rung in course `ch`.
pub struct FalsenessEntry {
    pub seg1: usize,
    pub seg2: usize,
    pub transposition: Row,
}

/// The transposition under which row `r2` of one course collides with row `r1`
/// of another: `t = r1 * r2^{-1}`.
pub open spec fn collision_transposition(r1: Seq<usize>, r2: Seq<usize>) -> Seq<usize> {
    seq_compose(r1, seq_inv(r2))
}

/// A table of falseness entries between segments of a layout.
pub struct FalsenessTable {
    pub entries: Vec<FalsenessEntry>,
}

/// Two rows put every fixed bell in the same place.
pub open spec fn fixed_bells_agree(fixed_bells: Seq<usize>, r1: Seq<usize>, r2: Seq<usize>) -> bool {
    forall|f: int, p1: int, p2: int|
        0 <= f < fixed_bells.len() && 0 <= p1 < r1.len() && 0 <= p2 < r2.len() && r1[p1]
            == fixed_bells[f] && r2[p2] == fixed_bells[f] ==> p1 == p2
}

impl FalsenessTable {
    /// Every pair of rows (one from each segment) whose fixed bells sit in the
    /// same places contributes its collision transposition to the table.
    pub fn from_layout(layout: &Layout) -> (r: FalsenessTable)
        requires
            layout.wf(),
        ensures
            forall|s1: int, s2: int, k1: int, k2: int|
                0 <= s1 < layout.segments@.len() && 0 <= s2 < layout.segments@.len() && 0 <= k1
                    < layout.segments@[s1].row_range.1.length && 0 <= k2
                    < layout.segments@[s2].row_range.1.length && fixed_bells_agree(
                    layout.fixed_bells@,
                    spec_segment_row(layout, s1, k1),
                    #[trigger] spec_segment_row(layout, s2, k2),
                ) ==> #[trigger] table_has_entry(
                    r.entries@,
                    s1,
                    s2,
                    collision_transposition(
                        spec_segment_row(layout, s1, k1),
                        spec_segment_row(layout, s2, k2),
                    ),
                ),
            forall|e: int|
                0 <= e < r.entries@.len() ==> (#[trigger] r.entries@[e]).seg1
                    < layout.segments@.len() && r.entries@[e].seg2 < layout.segments@.len()
                    && r.entries@[e].transposition.wf() && r.entries@[e].transposition@.len()
                    == layout.spec_stage(),
    {
        let num_segments = layout.segments.len();
        let num_fixed = layout.fixed_bells.len();
        let mut entries: Vec<FalsenessEntry> = Vec::new();
        let mut s1: usize = 0;
        while s1 < num_segments
            invariant
                layout.wf(),
                num_segments == layout.segments@.len(),
                num_fixed == layout.fixed_bells@.len(),
                s1 <= num_segments,
                forall|e: int|
                    0 <= e < entries@.len() ==> (#[trigger] entries@[e]).seg1
                        < layout.segments@.len() && entries@[e].seg2 < layout.segments@.len()
                        && entries@[e].transposition.wf() && entries@[e].transposition@.len()
                        == layout.spec_stage(),
                forall|s1i: int, s2i: int, k1: int, k2: int|
                    0 <= s1i < s1 && 0 <= s2i < num_segments && 0 <= k1
                        < layout.segments@[s1i].row_range.1.length && 0 <= k2
                        < layout.segments@[s2i].row_range.1.length && fixed_bells_agree(
                        layout.fixed_bells@,
                        spec_segment_row(layout, s1i, k1),
                        #[trigger] spec_segment_row(layout, s2i, k2),
                    ) ==> #[trigger] table_has_entry(
                        entries@,
                        s1i,
                        s2i,
                        collision_transposition(
                            spec_segment_row(layout, s1i, k1),
                            spec_segment_row(layout, s2i, k2),
                        ),
                    ),
            decreases num_segments - s1,
        {
            let rows1 = layout.segment_rows(s1);
            let n1 = rows1.len();
            let mut s2: usize = 0;
            while s2 < num_segments
                invariant
                    layout.wf(),
                    num_segments == layout.segments@.len(),
                    num_fixed == layout.fixed_bells@.len(),
                    s1 < num_segments,
                    s2 <= num_segments,
                    n1 == layout.segments@[s1 as int].row_range.1.length,
                    rows1@.len() == n1,
                    forall|k: int|
                        0 <= k < n1 ==> (#[trigger] rows1@[k])@ == spec_segment_row(
                            layout,
                            s1 as int,
                            k,
                        ) && rows1@[k].wf() && rows1@[k]@.len() == layout.spec_stage(),
                    forall|e: int|
                        0 <= e < entries@.len() ==> (#[trigger] entries@[e]).seg1
                            < layout.segments@.len() && entries@[e].seg2 < layout.segments@.len()
                            && entries@[e].transposition.wf() && entries@[e].transposition@.len()
                            == layout.spec_stage(),
                    forall|s1i: int, s2i: int, k1: int, k2: int|
                        0 <= s1i < s1 && 0 <= s2i < num_segments && 0 <= k1
                            < layout.segments@[s1i].row_range.1.length && 0 <= k2
                            < layout.segments@[s2i].row_range.1.length && fixed_bells_agree(
                            layout.fixed_bells@,
                            spec_segment_row(layout, s1i, k1),
                            #[trigger] spec_segment_row(layout, s2i, k2),
                        ) ==> #[trigger] table_has_entry(
                            entries@,
                            s1i,
                            s2i,
                            collision_transposition(
                                spec_segment_row(layout, s1i, k1),
                                spec_segment_row(layout, s2i, k2),
                            ),
                        ),
                    forall|s2i: int, k1: int, k2: int|
                        0 <= s2i < s2 && 0 <= k1 < layout.segments@[s1 as int].row_range.1.length
                            && 0 <= k2 < layout.segments@[s2i].row_range.1.length
                            && fixed_bells_agree(
                            layout.fixed_bells@,
                            spec_segment_row(layout, s1 as int, k1),
                            #[trigger] spec_segment_row(layout, s2i, k2),
                        ) ==> #[trigger] table_has_entry(
                            entries@,
                            s1 as int,
                            s2i,
                            collision_transposition(
                                spec_segment_row(layout, s1 as int, k1),
                                spec_segment_row(layout, s2i, k2),
                            ),
                        ),
                decreases num_segments - s2,
            {
                let rows2 = layout.segment_rows(s2);
                let n2 = rows2.len();
                let mut k1: usize = 0;
                while k1 < n1
                    invariant
                        layout.wf(),
                        num_segments == layout.segments@.len(),
                        num_fixed == layout.fixed_bells@.len(),
                        s1 < num_segments,
                        s2 < num_segments,
                        n1 == layout.segments@[s1 as int].row_range.1.length,
                        n2 == layout.segments@[s2 as int].row_range.1.length,
                        rows1@.len() == n1,
                        rows2@.len() == n2,
                        k1 <= n1,
                        forall|k: int|
                            0 <= k < n1 ==> (#[trigger] rows1@[k])@ == spec_segment_row(
                                layout,
                                s1 as int,
                                k,
                            ) && rows1@[k].wf() && rows1@[k]@.len() == layout.spec_stage(),
                        forall|k: int|
                            0 <= k < n2 ==> (#[trigger] rows2@[k])@ == spec_segment_row(
                                layout,
                                s2 as int,
                                k,
                            ) && rows2@[k].wf() && rows2@[k]@.len() == layout.spec_stage(),
                        forall|e: int|
                            0 <= e < entries@.len() ==> (#[trigger] entries@[e]).seg1
                                < layout.segments@.len() && entries@[e].seg2
                                < layout.segments@.len() && entries@[e].transposition.wf()
                                && entries@[e].transposition@.len() == layout.spec_stage(),
                        forall|s1i: int, s2i: int, k1i: int, k2i: int|
                            0 <= s1i < s1 && 0 <= s2i < num_segments && 0 <= k1i
                                < layout.segments@[s1i].row_range.1.length && 0 <= k2i
                                < layout.segments@[s2i].row_range.1.length && fixed_bells_agree(
                                layout.fixed_bells@,
                                spec_segment_row(layout, s1i, k1i),
                                #[trigger] spec_segment_row(layout, s2i, k2i),
                            ) ==> #[trigger] table_has_entry(
                                entries@,
                                s1i,
                                s2i,
                                collision_transposition(
                                    spec_segment_row(layout, s1i, k1i),
                                    spec_segment_row(layout, s2i, k2i),
                                ),
                            ),
                        forall|s2i: int, k1i: int, k2i: int|
                            0 <= s2i < s2 && 0 <= k1i
                                < layout.segments@[s1 as int].row_range.1.length && 0 <= k2i
                                < layout.segments@[s2i].row_range.1.length && fixed_bells_agree(
                                layout.fixed_bells@,
                                spec_segment_row(layout, s1 as int, k1i),
                                #[trigger] spec_segment_row(layout, s2i, k2i),
                            ) ==> #[trigger] table_has_entry(
                                entries@,
                                s1 as int,
                                s2i,
                                collision_transposition(
                                    spec_segment_row(layout, s1 as int, k1i),
                                    spec_segment_row(layout, s2i, k2i),
                                ),
                            ),
                        forall|k1i: int, k2i: int|
                            0 <= k1i < k1 && 0 <= k2i
                                < layout.segments@[s2 as int].row_range.1.length
                                && fixed_bells_agree(
                                layout.fixed_bells@,
                                spec_segment_row(layout, s1 as int, k1i),
                                #[trigger] spec_segment_row(layout, s2 as int, k2i),
                            ) ==> #[trigger] table_has_entry(
                                entries@,
                                s1 as int,
                                s2 as int,
                                collision_transposition(
                                    spec_segment_row(layout, s1 as int, k1i),
                                    spec_segment_row(layout, s2 as int, k2i),
                                ),
                            ),
                    decreases n1 - k1,
                {
                    let r1 = &rows1[k1];
                    let mut k2: usize = 0;
                    while k2 < n2
                        invariant
                            layout.wf(),
                            num_segments == layout.segments@.len(),
                            num_fixed == layout.fixed_bells@.len(),
                            s1 < num_segments,
                            s2 < num_segments,
                            n1 == layout.segments@[s1 as int].row_range.1.length,
                            n2 == layout.segments@[s2 as int].row_range.1.length,
                            rows1@.len() == n1,
                            rows2@.len() == n2,
                            k1 < n1,
                            k2 <= n2,
                            r1 == rows1@[k1 as int],
                            forall|k: int|
                                0 <= k < n1 ==> (#[trigger] rows1@[k])@ == spec_segment_row(
                                    layout,
                                    s1 as int,
                                    k,
                                ) && rows1@[k].wf() && rows1@[k]@.len() == layout.spec_stage(),
                            forall|k: int|
                                0 <= k < n2 ==> (#[trigger] rows2@[k])@ == spec_segment_row(
                                    layout,
                                    s2 as int,
                                    k,
                                ) && rows2@[k].wf() && rows2@[k]@.len() == layout.spec_stage(),
                            forall|e: int|
                                0 <= e < entries@.len() ==> (#[trigger] entries@[e]).seg1
                                    < layout.segments@.len() && entries@[e].seg2
                                    < layout.segments@.len() && entries@[e].transposition.wf()
                                    && entries@[e].transposition@.len() == layout.spec_stage(),
                            forall|s1i: int, s2i: int, k1i: int, k2i: int|
                                0 <= s1i < s1 && 0 <= s2i < num_segments && 0 <= k1i
                                    < layout.segments@[s1i].row_range.1.length && 0 <= k2i
                                    < layout.segments@[s2i].row_range.1.length
                                    && fixed_bells_agree(
                                    layout.fixed_bells@,
                                    spec_segment_row(layout, s1i, k1i),
                                    #[trigger] spec_segment_row(layout, s2i, k2i),
                                ) ==> #[trigger] table_has_entry(
                                    entries@,
                                    s1i,
                                    s2i,
                                    collision_transposition(
                                        spec_segment_row(layout, s1i, k1i),
                                        spec_segment_row(layout, s2i, k2i),
                                    ),
                                ),
                            forall|s2i: int, k1i: int, k2i: int|
                                0 <= s2i < s2 && 0 <= k1i
                                    < layout.segments@[s1 as int].row_range.1.length && 0 <= k2i
                                    < layout.segments@[s2i].row_range.1.length
                                    && fixed_bells_agree(
                                    layout.fixed_bells@,
                                    spec_segment_row(layout, s1 as int, k1i),
                                    #[trigger] spec_segment_row(layout, s2i, k2i),
                                ) ==> #[trigger] table_has_entry(
                                    entries@,
                                    s1 as int,
                                    s2i,
                                    collision_transposition(
                                        spec_segment_row(layout, s1 as int, k1i),
                                        spec_segment_row(layout, s2i, k2i),
                                    ),
                                ),
                            forall|k1i: int, k2i: int|
                                0 <= k1i < k1 && 0 <= k2i
                                    < layout.segments@[s2 as int].row_range.1.length
                                    && fixed_bells_agree(
                                    layout.fixed_bells@,
                                    spec_segment_row(layout, s1 as int, k1i),
                                    #[trigger] spec_segment_row(layout, s2 as int, k2i),
                                ) ==> #[trigger] table_has_entry(
                                    entries@,
                                    s1 as int,
                                    s2 as int,
                                    collision_transposition(
                                        spec_segment_row(layout, s1 as int, k1i),
                                        spec_segment_row(layout, s2 as int, k2i),
                                    ),
                                ),
                            forall|k2i: int|
                                0 <= k2i < k2 && fixed_bells_agree(
                                    layout.fixed_bells@,
                                    spec_segment_row(layout, s1 as int, k1 as int),
                                    #[trigger] spec_segment_row(layout, s2 as int, k2i),
                                ) ==> #[trigger] table_has_entry(
                                    entries@,
                                    s1 as int,
                                    s2 as int,
                                    collision_transposition(
                                        spec_segment_row(layout, s1 as int, k1 as int),
                                        spec_segment_row(layout, s2 as int, k2i),
                                    ),
                                ),
                        decreases n2 - k2,
                    {
                        let r2 = &rows2[k2];
                        if rows_fix_bells_alike(layout, r1, r2) {
                            let r2_inv = r2.inv();
                            let t = r1.mul(&r2_inv);
                            proof {
                                let ghost r2row = rows2@[k2 as int];
                                r2row.lemma_view_len();
                                lemma_solve_xa_eq_b(r2@, r1@);
                                assert(t@ =~= collision_transposition(r1@, r2@)) by {
                                    let a = r2@;
                                    assert forall|i: int| 0 <= i < a.len() implies t@[i]
                                        == collision_transposition(r1@, r2@)[i] by {
                                        assert(collision_transposition(r1@, r2@)[i] == r1@[seq_inv(
                                            a,
                                        )[i] as int]);
                                        assert(a[seq_inv(a)[i] as int] == i as usize);
                                        assert(r2_inv@[a[seq_inv(a)[i] as int] as int] == seq_inv(
                                            a,
                                        )[i]);
                                    }
                                }
                            }
                            proof {
                                lemma_table_push(
                                    entries@,
                                    FalsenessEntry { seg1: s1, seg2: s2, transposition: t },
                                );
                            }
                            entries.push(
                                FalsenessEntry { seg1: s1, seg2: s2, transposition: t },
                            );
                            proof {
                                assert(table_has_entry(
                                    entries@,
                                    s1 as int,
                                    s2 as int,
                                    collision_transposition(
                                        spec_segment_row(layout, s1 as int, k1 as int),
                                        spec_segment_row(layout, s2 as int, k2 as int),
                                    ),
                                )) by {
                                    assert(entries@[entries@.len() - 1].transposition@
                                        == collision_transposition(
                                        spec_segment_row(layout, s1 as int, k1 as int),
                                        spec_segment_row(layout, s2 as int, k2 as int),
                                    ));
                                }
                            }
                        }
                        k2 += 1;
                    }
                    k1 += 1;
                }
                s2 += 1;
            }
            s1 += 1;
        }
        FalsenessTable { entries }
    }
}

/// Pushing an entry keeps every entry the table already had.
pub proof fn lemma_table_push(es: Seq<FalsenessEntry>, e: FalsenessEntry)
    ensures
        forall|s1: int, s2: int, t: Seq<usize>|
            table_has_entry(es, s1, s2, t) ==> #[trigger] table_has_entry(es.push(e), s1, s2, t),
{
    assert forall|s1: int, s2: int, t: Seq<usize>|
        table_has_entry(es, s1, s2, t) implies #[trigger] table_has_entry(
        es.push(e),
        s1,
        s2,
        t,
    ) by {
        let w = choose|w: int|
            0 <= w < es.len() && (#[trigger] es[w]).seg1 == s1 && es[w].seg2 == s2
                && es[w].transposition@ == t;
        assert(es.push(e)[w] == es[w]);
    }
}

/// Whether a table holds an entry for a segment pair with a transposition.
pub open spec fn table_has_entry(entries: Seq<FalsenessEntry>, s1: int, s2: int, t: Seq<
    usize,
>) -> bool {
    exists|e: int|
        0 <= e < entries.len() && (#[trigger] entries[e]).seg1 == s1 && entries[e].seg2 == s2
            && entries[e].transposition@ == t
}

/// Whether two rows put all of the layout's fixed bells in the same places.
pub fn rows_fix_bells_alike(layout: &Layout, r1: &Row, r2: &Row) -> (r: bool)
    requires
        layout.wf(),
        r1.wf(),
        r2.wf(),
        r1@.len() == layout.spec_stage(),
        r2@.len() == layout.spec_stage(),
    ensures
        r == fixed_bells_agree(layout.fixed_bells@, r1@, r2@),
{
    let num_fixed = layout.fixed_bells.len();
    for f in 0..num_fixed
        invariant
            layout.wf(),
            r1.wf(),
            r2.wf(),
            r1@.len() == layout.spec_stage(),
            r2@.len() == layout.spec_stage(),
            num_fixed == layout.fixed_bells@.len(),
            forall|fi: int, p1: int, p2: int|
                0 <= fi < f && 0 <= p1 < r1@.len() && 0 <= p2 < r2@.len() && r1@[p1]
                    == layout.fixed_bells@[fi] && r2@[p2] == layout.fixed_bells@[fi] ==> p1 == p2,
    {
        let fb = layout.fixed_bells[f];
        let p1 = r1.place_of(fb);
        let p2 = r2.place_of(fb);
        if p1 != p2 {
            proof {
                assert(!fixed_bells_agree(layout.fixed_bells@, r1@, r2@));
            }
            return false;
        }
        proof {
            assert forall|p1i: int, p2i: int|
                0 <= p1i < r1@.len() && 0 <= p2i < r2@.len() && r1@[p1i]
                    == layout.fixed_bells@[f as int] && r2@[p2i] == layout.fixed_bells@[f as int]
                implies p1i == p2i by {
                if p1i != p1 as int {
                    assert(r1@[p1i] == r1@[p1 as int]);
                }
                if p2i != p2 as int {
                    assert(r2@[p2i] == r2@[p2 as int]);
                }
            }
        }
    }
    true
}

} // verus!
