//! A block of rows, each carrying an annotation.  Every block finishes with a
//! 'left-over' row: the first row of whatever is rung after the block.  The
//! left-over row is not part of the block and carries no annotation.

use vstd::prelude::*;
use crate::row::{Row, rounds_seq, is_row_seq};

verus! {

/// Composition of two rows as sequences: `seq_compose(a, b)[i] == a[b[i]]`.
pub open spec fn seq_compose(a: Seq<usize>, b: Seq<usize>) -> Seq<usize> {
    Seq::new(b.len(), |i: int| a[b[i] as int])
}

/// The inverse of a permutation, as a sequence.
pub open spec fn seq_inv(a: Seq<usize>) -> Seq<usize> {
    Seq::new(a.len(), |i: int| (choose|j: int| 0 <= j < a.len() && a[j] == i as usize) as usize)
}

/// The unique row `x` with `x * a == b`: pre-multiplying by it takes `a` to `b`.
pub open spec fn solve_xa_eq_b(a: Seq<usize>, b: Seq<usize>) -> Seq<usize> {
    seq_compose(b, seq_inv(a))
}

/// For permutations of one stage, `solve_xa_eq_b(a, b)` really does take `a` to `b`.
pub proof fn lemma_solve_xa_eq_b(a: Seq<usize>, b: Seq<usize>)
    requires
        a.len() <= usize::MAX,
        is_row_seq(a, a.len()),
        is_row_seq(b, b.len()),
        a.len() == b.len(),
    ensures
        is_row_seq(solve_xa_eq_b(a, b), a.len()),
        seq_compose(solve_xa_eq_b(a, b), a) =~= b,
        forall|i: int|
            0 <= i < a.len() ==> #[trigger] seq_inv(a)[i] < a.len() && a[seq_inv(a)[i] as int]
                == i as usize,
        forall|i: int| 0 <= i < a.len() ==> #[trigger] seq_inv(a)[a[i] as int] == i,
{
    let x = solve_xa_eq_b(a, b);
    assert forall|i: int| 0 <= i < a.len() implies seq_inv(a)[a[i] as int] == i by {
        assert(0 <= i < a.len() && a[i] == a[i]);
        let j = choose|j: int| 0 <= j < a.len() && a[j] == a[i];
        if j != i {
            assert(a[j] != a[i]);
        }
    }
    assert forall|i: int| 0 <= i < a.len() implies seq_inv(a)[i] < a.len() && a[seq_inv(a)[i] as int]
        == i as usize by {
        assert(crate::row::seq_has_bell(a, i as usize));
        let j = choose|j: int| 0 <= j < a.len() && a[j] == i as usize;
        assert(seq_inv(a)[i] == j as usize);
    }
    assert forall|i: int| 0 <= i < x.len() implies x[i] < a.len() by {}
    assert forall|p: int, q: int| 0 <= p < q < x.len() implies x[p] != x[q] by {
        if x[p] == x[q] {
            assert(b[seq_inv(a)[p] as int] == b[seq_inv(a)[q] as int]);
            assert(seq_inv(a)[p] == seq_inv(a)[q]);
            assert(a[seq_inv(a)[p] as int] == p as usize);
            assert(a[seq_inv(a)[q] as int] == q as usize);
        }
    }
    assert forall|v: usize| v < x.len() implies #[trigger] crate::row::seq_has_bell(x, v) by {
        assert(crate::row::seq_has_bell(b, v));
        let p = choose|p: int| 0 <= p < b.len() && b[p] == v;
        assert(x[a[p] as int] == b[seq_inv(a)[a[p] as int] as int]);
        assert(seq_inv(a)[a[p] as int] == p);
        assert(x[a[p] as int] == v);
    }
    assert forall|i: int| 0 <= i < a.len() implies seq_compose(x, a)[i] == b[i] by {
        assert(seq_compose(x, a)[i] == x[a[i] as int]);
        assert(x[a[i] as int] == b[seq_inv(a)[a[i] as int] as int]);
        assert(seq_inv(a)[a[i] as int] == i);
    }
}

/// Whether a block of rows repeats a row (the left-over row is not counted).
#[derive(PartialEq, Eq, Structural, Clone, Copy, Debug)]
pub enum Truth {
    True,
    False,
}

impl Truth {
    pub fn is_true(self) -> (r: bool)
        ensures
            r == (self == Truth::True),
    {
        match self {
            Truth::True => true,
            Truth::False => false,
        }
    }
}

/// The ways that parsing a block can fail.
#[derive(PartialEq, Eq, Structural, Clone, Copy, Debug)]
pub enum ParseError {
    ZeroLengthBlock,
    InvalidRow { line: usize },
    IncompatibleStages { line: usize },
}

/// A block of annotated rows, ending with an unannotated left-over row.
pub struct Block<A> {
    pub rows: Vec<Row>,
    pub annots: Vec<A>,
}

impl<A> Block<A> {
    /// Rows are one longer than the annotations, and all share one stage.
    pub open spec fn wf(&self) -> bool {
        &&& self.rows@.len() >= 1
        &&& self.annots@.len() + 1 == self.rows@.len()
        &&& forall|i: int| 0 <= i < self.rows@.len() ==> (#[trigger] self.rows@[i]).wf()
        &&& forall|i: int|
            0 <= i < self.rows@.len() ==> (#[trigger] self.rows@[i])@.len() == self.rows@[0]@.len()
    }

    /// The stage shared by every row of the block.
    pub open spec fn spec_stage(&self) -> nat {
        self.rows@[0]@.len()
    }

    /// The length of the block: the number of annotated rows.
    pub open spec fn spec_len(&self) -> nat {
        self.annots@.len()
    }

    /// The view of the left-over row.
    pub open spec fn spec_leftover(&self) -> Seq<usize> {
        self.rows@.last()@
    }

    /// A block with no annotated rows and a given left-over row.
    pub fn with_leftover_row(leftover_row: Row) -> (r: Block<A>)
        requires
            leftover_row.wf(),
        ensures
            r.wf(),
            r.spec_len() == 0,
            r.spec_leftover() == leftover_row@,
            r.spec_stage() == leftover_row@.len(),
    {
        let mut rows: Vec<Row> = Vec::new();
        rows.push(leftover_row);
        Block { rows, annots: Vec::new() }
    }

    /// A block with no annotated rows and rounds left over.
    pub fn empty(stage: usize) -> (r: Block<A>)
        ensures
            r.wf(),
            r.spec_len() == 0,
            r.spec_leftover() == rounds_seq(stage as nat),
            r.spec_stage() == stage,
    {
        Self::with_leftover_row(Row::rounds(stage))
    }

    /// The stage of this block.
    pub fn stage(&self) -> (r: usize)
        requires
            self.wf(),
        ensures
            r == self.spec_stage(),
    {
        self.rows[0].stage()
    }

    /// The number of annotated rows.
    pub fn len(&self) -> (r: usize)
        ensures
            r == self.spec_len(),
    {
        self.annots.len()
    }

    /// Whether the block has no annotated rows.
    pub fn is_empty(&self) -> (r: bool)
        ensures
            r == (self.spec_len() == 0),
    {
        self.annots.is_empty()
    }

    /// The row at a given index (the left-over row is at index `len()`).
    pub fn get_row(&self, index: usize) -> (r: Option<&Row>)
        ensures
            match r {
                Some(row) => index < self.rows@.len() && row == self.rows@[index as int],
                None => index >= self.rows@.len(),
            },
    {
        if index < self.rows.len() {
            Some(&self.rows[index])
        } else {
            None
        }
    }

    /// The annotation at a given index.
    pub fn get_annot(&self, index: usize) -> (r: Option<&A>)
        ensures
            match r {
                Some(a) => index < self.annots@.len() && a == self.annots@[index as int],
                None => index >= self.annots@.len(),
            },
    {
        if index < self.annots.len() {
            Some(&self.annots[index])
        } else {
            None
        }
    }

    /// Replace the annotation at a given index.
    pub fn set_annot(&mut self, index: usize, annot: A)
        requires
            index < old(self).annots@.len(),
        ensures
            final(self).rows@ == old(self).rows@,
            final(self).annots@ == old(self).annots@.update(index as int, annot),
    {
        self.annots.set(index, annot);
    }

    /// The annotated row at a given index.
    pub fn get_annot_row(&self, index: usize) -> (r: Option<(&A, &Row)>)
        requires
            self.wf(),
        ensures
            match r {
                Some((a, row)) => {
                    &&& index < self.annots@.len()
                    &&& a == self.annots@[index as int]
                    &&& row == self.rows@[index as int]
                },
                None => index >= self.annots@.len(),
            },
    {
        if index < self.annots.len() {
            Some((&self.annots[index], &self.rows[index]))
        } else {
            None
        }
    }

    /// The first row of the block, which may be the left-over row.
    pub fn first_row(&self) -> (r: &Row)
        requires
            self.wf(),
        ensures
            r == self.rows@[0],
    {
        &self.rows[0]
    }

    /// The first annotated row, if there is one.
    pub fn first_annot_row(&self) -> (r: Option<(&A, &Row)>)
        requires
            self.wf(),
        ensures
            match r {
                Some((a, row)) => {
                    &&& 0 < self.annots@.len()
                    &&& a == self.annots@[0]
                    &&& row == self.rows@[0]
                },
                None => self.annots@.len() == 0,
            },
    {
        self.get_annot_row(0)
    }

    /// The left-over row.
    pub fn leftover_row(&self) -> (r: &Row)
        requires
            self.wf(),
        ensures
            r == self.rows@.last(),
            r@ == self.spec_leftover(),
    {
        &self.rows[self.rows.len() - 1]
    }

    /// Replace the left-over row, which must keep the block's stage.
    pub fn set_leftover_row(&mut self, row: Row)
        requires
            old(self).wf(),
            row.wf(),
            row@.len() == old(self).spec_stage(),
        ensures
            final(self).wf(),
            final(self).rows@ == old(self).rows@.update(old(self).rows@.len() - 1, row),
            final(self).annots@ == old(self).annots@,
            final(self).spec_leftover() == row@,
            final(self).spec_stage() == old(self).spec_stage(),
    {
        let last = self.rows.len() - 1;
        self.rows.set(last, row);
    }

    /// All rows, including the left-over row.
    pub fn all_rows(&self) -> (r: &Vec<Row>)
        ensures
            r == self.rows,
    {
        &self.rows
    }

    /// The annotations, in order.
    pub fn annots(&self) -> (r: &Vec<A>)
        ensures
            r == self.annots,
    {
        &self.annots
    }

    /// The underlying rows, including the left-over row.
    pub fn row_vec(&self) -> (r: &Vec<Row>)
        ensures
            r == self.rows,
    {
        &self.rows
    }

    /// Consume the block, returning all rows including the left-over row.
    pub fn into_rows(self) -> (r: Vec<Row>)
        ensures
            r == self.rows,
    {
        self.rows
    }

    /// The rows that are properly part of the block: all but the left-over row.
    pub fn rows(&self) -> (r: Vec<Row>)
        requires
            self.wf(),
        ensures
            r@.len() == self.spec_len(),
            forall|i: int| 0 <= i < r@.len() ==> (#[trigger] r@[i])@ == self.rows@[i]@,
    {
        let mut out: Vec<Row> = Vec::new();
        let n = self.annots.len();
        for i in 0..n
            invariant
                self.wf(),
                n == self.annots@.len(),
                out@.len() == i,
                forall|j: int| 0 <= j < i ==> (#[trigger] out@[j])@ == self.rows@[j]@,
        {
            out.push(self.rows[i].clone());
        }
        out
    }

    /// Whether any row is repeated within the block (the left-over row is not
    /// counted).
    pub fn truth(&self) -> (r: Truth)
        requires
            self.wf(),
        ensures
            r == Truth::True <==> (forall|i: int, j: int|
                0 <= i < j < self.spec_len() ==> (#[trigger] self.rows@[i])@ != (
                #[trigger] self.rows@[j])@),
    {
        let n = self.annots.len();
        for i in 0..n
            invariant
                self.wf(),
                n == self.annots@.len(),
                forall|p: int, q: int|
                    0 <= p < q < n && p < i ==> (#[trigger] self.rows@[p])@ != (
                    #[trigger] self.rows@[q])@,
        {
            for j in (i + 1)..n
                invariant
                    self.wf(),
                    i < n,
                    n == self.annots@.len(),
                    forall|p: int, q: int|
                        0 <= p < q < n && p < i ==> (#[trigger] self.rows@[p])@ != (
                        #[trigger] self.rows@[q])@,
                    forall|q: int|
                        i < q < j ==> (#[trigger] self.rows@[q])@ != self.rows@[i as int]@,
            {
                if self.rows[i] == self.rows[j] {
                    return Truth::False;
                }
            }
        }
        Truth::True
    }

    /// Whether the block repeats no row.
    pub fn is_true(&self) -> (r: bool)
        requires
            self.wf(),
        ensures
            r <==> (forall|i: int, j: int|
                0 <= i < j < self.spec_len() ==> (#[trigger] self.rows@[i])@ != (
                #[trigger] self.rows@[j])@),
    {
        self.truth().is_true()
    }

    /// The place of a bell in every row, including the left-over row.
    pub fn full_path_of(&self, bell: usize) -> (r: Vec<usize>)
        requires
            self.wf(),
            bell < self.spec_stage(),
        ensures
            r@.len() == self.rows@.len(),
            forall|i: int| 0 <= i < r@.len() ==> #[trigger] r@[i] < self.spec_stage(),
            forall|i: int|
                0 <= i < r@.len() ==> (#[trigger] self.rows@[i])@[r@[i] as int] == bell,
    {
        let mut out: Vec<usize> = Vec::new();
        let n = self.rows.len();
        for i in 0..n
            invariant
                self.wf(),
                bell < self.spec_stage(),
                n == self.rows@.len(),
                out@.len() == i,
                forall|j: int| 0 <= j < i ==> #[trigger] out@[j] < self.spec_stage(),
                forall|j: int|
                    0 <= j < i ==> (#[trigger] self.rows@[j])@[out@[j] as int] == bell,
        {
            let p = self.rows[i].place_of(bell);
            out.push(p);
            proof {
                assert(self.rows@[i as int]@.len() == self.spec_stage());
                assert(out@[i as int] == p);
                assert((self.rows@[i as int])@[p as int] == bell);
            }
        }
        out
    }

    /// The place of a bell in every annotated row, and separately in the
    /// left-over row.
    pub fn path_of(&self, bell: usize) -> (r: (Vec<usize>, usize))
        requires
            self.wf(),
            bell < self.spec_stage(),
        ensures
            r.0@.len() == self.spec_len(),
            forall|i: int| 0 <= i < r.0@.len() ==> #[trigger] r.0@[i] < self.spec_stage(),
            forall|i: int|
                0 <= i < r.0@.len() ==> (#[trigger] self.rows@[i])@[r.0@[i] as int] == bell,
            r.1 < self.spec_stage(),
            self.spec_leftover()[r.1 as int] == bell,
    {
        let mut full = self.full_path_of(bell);
        let leftover_place = full.pop().unwrap();
        (full, leftover_place)
    }

    /// Pre-multiply every row of the block (including the left-over row) by
    /// another row, preserving the annotations.
    pub fn pre_multiply(&mut self, lhs_row: &Row)
        requires
            old(self).wf(),
            lhs_row.wf(),
            lhs_row@.len() == old(self).spec_stage(),
        ensures
            final(self).wf(),
            final(self).spec_stage() == old(self).spec_stage(),
            final(self).annots@ == old(self).annots@,
            final(self).rows@.len() == old(self).rows@.len(),
            forall|i: int|
                0 <= i < final(self).rows@.len() ==> (#[trigger] final(self).rows@[i])@
                    == seq_compose(lhs_row@, old(self).rows@[i]@),
    {
        let n = self.rows.len();
        let mut i: usize = 0;
        while i < n
            invariant
                old(self).wf(),
                lhs_row.wf(),
                lhs_row@.len() == old(self).spec_stage(),
                n == self.rows@.len(),
                n == old(self).rows@.len(),
                self.annots@ == old(self).annots@,
                i <= n,
                forall|j: int| i <= j < n ==> self.rows@[j] == old(self).rows@[j],
                forall|j: int|
                    0 <= j < i ==> (#[trigger] self.rows@[j])@ == seq_compose(
                        lhs_row@,
                        old(self).rows@[j]@,
                    ) && self.rows@[j].wf() && self.rows@[j]@.len() == old(self).spec_stage(),
            decreases n - i,
        {
            let new_row = lhs_row.mul(&self.rows[i]);
            proof {
                assert(new_row@ =~= seq_compose(lhs_row@, old(self).rows@[i as int]@));
            }
            self.rows.set(i, new_row);
            i += 1;
        }
        proof {
            assert(final(self).rows@[0]@.len() == old(self).spec_stage());
        }
    }

    /// Extend `self` with the rows `start..end` of another block,
    /// pre-multiplied so that the extension starts at `self`'s left-over row.
    pub fn extend_range(&mut self, other: &Block<A>, start: usize, end: usize) where A: Copy
        requires
            old(self).wf(),
            other.wf(),
            other.spec_stage() == old(self).spec_stage(),
            start <= end,
            end <= other.spec_len(),
        ensures
            final(self).wf(),
            final(self).spec_stage() == old(self).spec_stage(),
            final(self).spec_len() == old(self).spec_len() + (end - start),
            final(self).annots@ == old(self).annots@ + other.annots@.subrange(
                start as int,
                end as int,
            ),
            final(self).rows@.len() == old(self).rows@.len() + (end - start),
            forall|j: int|
                0 <= j < old(self).rows@.len() - 1 ==> (#[trigger] final(self).rows@[j])@ == old(
                    self,
                ).rows@[j]@,
            forall|k: int|
                0 <= k <= end - start ==> (#[trigger] final(self).rows@[old(self).rows@.len() - 1
                    + k])@ == seq_compose(
                    solve_xa_eq_b(other.rows@[start as int]@, old(self).spec_leftover()),
                    other.rows@[start + k]@,
                ),
    {
        let ghost old_self = *self;
        let ghost t_spec = solve_xa_eq_b(other.rows@[start as int]@, old(self).spec_leftover());
        // The transposition pre-multiplies `other`'s row at `start` to `self`'s
        // left-over row.
        let last = self.rows.len() - 1;
        let start_row_inv = other.rows[start].inv();
        let transposition = self.rows[last].mul(&start_row_inv);
        proof {
            let ghost a_row = other.rows@[start as int];
            a_row.lemma_view_len();
            lemma_solve_xa_eq_b(other.rows@[start as int]@, old(self).spec_leftover());
            assert(transposition@ =~= t_spec) by {
                let a = other.rows@[start as int]@;
                let b = old(self).spec_leftover();
                assert forall|i: int| 0 <= i < a.len() implies transposition@[i] == t_spec[i] by {
                    assert(t_spec[i] == b[seq_inv(a)[i] as int]);
                    assert(a[seq_inv(a)[i] as int] == i as usize);
                    assert(start_row_inv@[a[seq_inv(a)[i] as int] as int] == seq_inv(a)[i]);
                    assert(start_row_inv@[i] == seq_inv(a)[i]);
                }
            }
        }
        // Drop the left-over row: it is replaced by the transposed copy of
        // `other`'s row at `start`.
        let _ = self.rows.pop();
        let count = end - start;
        let mut k: usize = 0;
        while k <= count
            invariant
                old_self.wf(),
                other.wf(),
                other.spec_stage() == old_self.spec_stage(),
                start <= end,
                end <= other.spec_len(),
                count == end - start,
                transposition.wf(),
                transposition@.len() == old_self.spec_stage(),
                transposition@ == t_spec,
                k <= count + 1,
                self.annots@ == old_self.annots@,
                self.rows@.len() == old_self.rows@.len() - 1 + k,
                forall|j: int|
                    0 <= j < old_self.rows@.len() - 1 ==> (#[trigger] self.rows@[j]) == old_self.rows@[j],
                forall|j: int|
                    0 <= j < k ==> (#[trigger] self.rows@[old_self.rows@.len() - 1 + j])@
                        == seq_compose(t_spec, other.rows@[start + j]@) && self.rows@[old_self.rows@.len()
                        - 1 + j].wf() && self.rows@[old_self.rows@.len() - 1 + j]@.len()
                        == old_self.spec_stage(),
            decreases count + 1 - k,
        {
            let new_row = transposition.mul(&other.rows[start + k]);
            proof {
                assert(new_row@ =~= seq_compose(t_spec, other.rows@[start + k as int]@));
                vstd::std_specs::vec::axiom_spec_len(&self.rows);
                vstd::std_specs::vec::axiom_spec_len(&other.rows);
                assert(self.rows@.len() <= usize::MAX);
            }
            self.rows.push(new_row);
            k += 1;
        }
        // Copy the annotations over.
        let mut j: usize = start;
        while j < end
            invariant
                other.wf(),
                start <= j <= end,
                end <= other.annots@.len(),
                self.annots@ == old_self.annots@ + other.annots@.subrange(start as int, j as int),
                self.rows@.len() == old_self.rows@.len() + count,
                old_self.wf(),
                count == end - start,
                forall|j2: int|
                    0 <= j2 < old_self.rows@.len() - 1 ==> (#[trigger] self.rows@[j2]) == old_self.rows@[j2],
                forall|j2: int|
                    0 <= j2 <= count ==> (#[trigger] self.rows@[old_self.rows@.len() - 1 + j2])@
                        == seq_compose(t_spec, other.rows@[start + j2]@) && self.rows@[old_self.rows@.len()
                        - 1 + j2].wf() && self.rows@[old_self.rows@.len() - 1 + j2]@.len()
                        == old_self.spec_stage(),
            decreases end - j,
        {
            self.annots.push(other.annots[j]);
            proof {
                assert(self.annots@ =~= old_self.annots@ + other.annots@.subrange(
                    start as int,
                    j + 1 as int,
                ));
            }
            j += 1;
        }
        proof {
            assert forall|i: int| 0 <= i < self.rows@.len() implies (#[trigger] self.rows@[i]).wf()
                && self.rows@[i]@.len() == self.rows@[0]@.len() by {
                if i < old_self.rows@.len() - 1 {
                    assert(self.rows@[i] == old_self.rows@[i]);
                } else {
                    let k2 = i - (old_self.rows@.len() - 1);
                    assert(self.rows@[old_self.rows@.len() - 1 + k2]@ == seq_compose(
                        t_spec,
                        other.rows@[start + k2]@,
                    ));
                }
                if 0 < old_self.rows@.len() - 1 {
                    assert(self.rows@[0] == old_self.rows@[0]);
                } else {
                    let k0: int = 0;
                    assert(self.rows@[old_self.rows@.len() - 1 + k0]@ == seq_compose(
                        t_spec,
                        other.rows@[start + k0]@,
                    ));
                    assert(old_self.rows@.len() - 1 + k0 == 0);
                }
            }
            if 0 < old_self.rows@.len() - 1 {
                assert(self.rows@[0] == old_self.rows@[0]);
            } else {
                let k0: int = 0;
                assert(self.rows@[old_self.rows@.len() - 1 + k0]@ == seq_compose(
                    t_spec,
                    other.rows@[start + k0]@,
                ));
            }
            assert(self.rows@[0]@.len() == old_self.spec_stage());
        }
    }

    /// Extend `self` with the whole of another block, pre-multiplied so that it
    /// starts at `self`'s left-over row.
    pub fn extend(&mut self, other: &Block<A>) where A: Copy
        requires
            old(self).wf(),
            other.wf(),
            other.spec_stage() == old(self).spec_stage(),
        ensures
            final(self).wf(),
            final(self).spec_stage() == old(self).spec_stage(),
            final(self).spec_len() == old(self).spec_len() + other.spec_len(),
            final(self).annots@ == old(self).annots@ + other.annots@,
            forall|j: int|
                0 <= j < old(self).rows@.len() - 1 ==> (#[trigger] final(self).rows@[j])@ == old(
                    self,
                ).rows@[j]@,
            forall|k: int|
                0 <= k <= other.spec_len() ==> (#[trigger] final(self).rows@[old(self).rows@.len()
                    - 1 + k])@ == seq_compose(
                    solve_xa_eq_b(other.rows@[0]@, old(self).spec_leftover()),
                    other.rows@[k]@,
                ),
    {
        let len = other.len();
        self.extend_range(other, 0, len);
        proof {
            assert(other.annots@.subrange(0, other.annots@.len() as int) =~= other.annots@);
        }
    }

    /// Ring one more change: the current left-over row gains an annotation and
    /// `next_row` becomes the new left-over row.
    pub fn push_row(&mut self, annot: A, next_row: Row)
        requires
            old(self).wf(),
            next_row.wf(),
            next_row@.len() == old(self).spec_stage(),
        ensures
            final(self).wf(),
            final(self).spec_stage() == old(self).spec_stage(),
            final(self).rows@ == old(self).rows@.push(next_row),
            final(self).annots@ == old(self).annots@.push(annot),
            final(self).spec_len() == old(self).spec_len() + 1,
            final(self).spec_leftover() == next_row@,
    {
        self.annots.push(annot);
        self.rows.push(next_row);
    }

    /// Extend `self` with a transposed copy of its own rows `start..end`,
    /// starting from the current left-over row.
    pub fn extend_from_within(&mut self, start: usize, end: usize) where A: Copy
        requires
            old(self).wf(),
            start <= end,
            end <= old(self).spec_len(),
        ensures
            final(self).wf(),
            final(self).spec_stage() == old(self).spec_stage(),
            final(self).spec_len() == old(self).spec_len() + (end - start),
            final(self).annots@ == old(self).annots@ + old(self).annots@.subrange(
                start as int,
                end as int,
            ),
            final(self).rows@.len() == old(self).rows@.len() + (end - start),
            forall|j: int|
                0 <= j < old(self).rows@.len() ==> (#[trigger] final(self).rows@[j]) == old(
                    self,
                ).rows@[j],
            forall|k: int|
                1 <= k <= end - start ==> (#[trigger] final(self).rows@[old(self).rows@.len() - 1
                    + k])@ == seq_compose(
                    solve_xa_eq_b(old(self).rows@[start as int]@, old(self).spec_leftover()),
                    old(self).rows@[start + k]@,
                ),
    {
        let ghost old_self = *self;
        let ghost t_spec = solve_xa_eq_b(old(self).rows@[start as int]@, old(self).spec_leftover());
        let last = self.rows.len() - 1;
        let start_row_inv = self.rows[start].inv();
        let transposition = self.rows[last].mul(&start_row_inv);
        proof {
            let ghost a_row = old_self.rows@[start as int];
            a_row.lemma_view_len();
            lemma_solve_xa_eq_b(old_self.rows@[start as int]@, old_self.spec_leftover());
            assert(transposition@ =~= t_spec) by {
                let a = old_self.rows@[start as int]@;
                let b = old_self.spec_leftover();
                assert forall|i: int| 0 <= i < a.len() implies transposition@[i] == t_spec[i] by {
                    assert(t_spec[i] == b[seq_inv(a)[i] as int]);
                    assert(a[seq_inv(a)[i] as int] == i as usize);
                    assert(start_row_inv@[a[seq_inv(a)[i] as int] as int] == seq_inv(a)[i]);
                    assert(start_row_inv@[i] == seq_inv(a)[i]);
                }
            }
        }
        let count = end - start;
        let mut k: usize = 1;
        while k <= count
            invariant
                old_self.wf(),
                start <= end,
                end <= old_self.spec_len(),
                count == end - start,
                transposition.wf(),
                transposition@.len() == old_self.spec_stage(),
                transposition@ == t_spec,
                1 <= k <= count + 1,
                self.annots@ == old_self.annots@,
                self.rows@.len() == old_self.rows@.len() + k - 1,
                forall|j: int|
                    0 <= j < old_self.rows@.len() ==> (#[trigger] self.rows@[j]) == old_self.rows@[j],
                forall|j: int|
                    1 <= j < k ==> (#[trigger] self.rows@[old_self.rows@.len() - 1 + j])@
                        == seq_compose(t_spec, old_self.rows@[start + j]@) && self.rows@[old_self.rows@.len()
                        - 1 + j].wf() && self.rows@[old_self.rows@.len() - 1 + j]@.len()
                        == old_self.spec_stage(),
            decreases count + 1 - k,
        {
            let source_row = self.rows[start + k].clone();
            proof {
                assert(self.rows@[start + k as int] == old_self.rows@[start + k as int]);
            }
            let new_row = transposition.mul(&source_row);
            proof {
                assert(new_row@ =~= seq_compose(t_spec, old_self.rows@[start + k as int]@));
                vstd::std_specs::vec::axiom_spec_len(&self.rows);
            }
            self.rows.push(new_row);
            k += 1;
        }
        let mut j: usize = start;
        while j < end
            invariant
                old_self.wf(),
                start <= j <= end,
                end <= old_self.annots@.len(),
                self.annots@ == old_self.annots@ + old_self.annots@.subrange(start as int, j as int),
                self.rows@.len() == old_self.rows@.len() + count,
                count == end - start,
                forall|j2: int|
                    0 <= j2 < old_self.rows@.len() ==> (#[trigger] self.rows@[j2]) == old_self.rows@[j2],
                forall|j2: int|
                    1 <= j2 <= count ==> (#[trigger] self.rows@[old_self.rows@.len() - 1 + j2])@
                        == seq_compose(t_spec, old_self.rows@[start + j2]@) && self.rows@[old_self.rows@.len()
                        - 1 + j2].wf() && self.rows@[old_self.rows@.len() - 1 + j2]@.len()
                        == old_self.spec_stage(),
            decreases end - j,
        {
            let a = self.annots[j];
            proof {
                assert(self.annots@[j as int] == old_self.annots@[j as int]);
            }
            self.annots.push(a);
            proof {
                assert(self.annots@ =~= old_self.annots@ + old_self.annots@.subrange(
                    start as int,
                    j + 1 as int,
                ));
            }
            j += 1;
        }
        proof {
            assert forall|i: int| 0 <= i < self.rows@.len() implies (#[trigger] self.rows@[i]).wf()
                && self.rows@[i]@.len() == self.rows@[0]@.len() by {
                if i < old_self.rows@.len() {
                    assert(self.rows@[i] == old_self.rows@[i]);
                } else {
                    let k2 = i - (old_self.rows@.len() - 1);
                    assert(self.rows@[old_self.rows@.len() - 1 + k2]@ == seq_compose(
                        t_spec,
                        old_self.rows@[start + k2]@,
                    ));
                }
                assert(self.rows@[0] == old_self.rows@[0]);
            }
        }
    }

    /// Split the block in two at `index`: the first part keeps `index` rows and
    /// a left-over row equal to the second part's first row.
    pub fn split(self, index: usize) -> (r: Option<(Block<A>, Block<A>)>)
        requires
            self.wf(),
        ensures
            match r {
                Some((first, second)) => {
                    &&& index <= self.spec_len()
                    &&& first.wf()
                    &&& second.wf()
                    &&& first.spec_len() == index
                    &&& second.spec_len() == self.spec_len() - index
                    &&& first.annots@ == self.annots@.subrange(0, index as int)
                    &&& second.annots@ == self.annots@.subrange(
                        index as int,
                        self.annots@.len() as int,
                    )
                    &&& forall|i: int|
                        0 <= i <= index ==> (#[trigger] first.rows@[i])@ == self.rows@[i]@
                    &&& forall|i: int|
                        0 <= i < second.rows@.len() ==> (#[trigger] second.rows@[i])@
                            == self.rows@[index + i]@
                },
                None => index > self.spec_len(),
            },
    {
        if index > self.annots.len() {
            return None;
        }
        let Block { mut rows, mut annots } = self;
        let second_annots = annots.split_off(index);
        let mut second_rows = rows.split_off(index);
        // The first row of the second part becomes the first block's left-over
        // row.
        rows.push(second_rows[0].clone());
        let first = Block { rows, annots };
        let second = Block { rows: second_rows, annots: second_annots };
        proof {
            assert(first.annots@ =~= self.annots@.subrange(0, index as int));
            assert(second.annots@ =~= self.annots@.subrange(
                index as int,
                self.annots@.len() as int,
            ));
        }
        Some((first, second))
    }
}

impl Block<()> {
    /// Parse a block from lines of bell names, the last line being left over.
    pub fn parse(lines: &Vec<Vec<char>>) -> (r: Result<Block<()>, ParseError>)
        ensures
            match r {
                Ok(b) => b.wf() && b.spec_len() + 1 == lines@.len(),
                Err(_) => true,
            },
    {
        let n = lines.len();
        if n == 0 {
            return Err(ParseError::ZeroLengthBlock);
        }
        let mut rows: Vec<Row> = Vec::new();
        for i in 0..n
            invariant
                n == lines@.len(),
                n >= 1,
                rows@.len() == i,
                forall|j: int| 0 <= j < i ==> (#[trigger] rows@[j]).wf(),
                forall|j: int| 0 <= j < i ==> (#[trigger] rows@[j])@.len() == rows@[0]@.len(),
        {
            match Row::parse(&lines[i]) {
                Some(row) => {
                    if i > 0 && row.stage() != rows[0].stage() {
                        return Err(ParseError::IncompatibleStages { line: i });
                    }
                    rows.push(row);
                },
                None => {
                    return Err(ParseError::InvalidRow { line: i });
                },
            }
        }
        let mut annots: Vec<()> = Vec::new();
        for i in 0..(n - 1)
            invariant
                annots@.len() == i,
        {
            annots.push(());
        }
        Ok(Block { rows, annots })
    }
}

} // verus!

verus! {

impl<A> Block<A> {
    /// A block over the given rows where every annotation takes its type's
    /// default value.
    pub fn with_default_annots(rows: Vec<Row>) -> (r: Block<A>) where A: Default
        requires
            rows@.len() >= 1,
            forall|i: int| 0 <= i < rows@.len() ==> (#[trigger] rows@[i]).wf(),
            forall|i: int| 0 <= i < rows@.len() ==> (#[trigger] rows@[i])@.len() == rows@[0]@.len(),
        ensures
            r.wf(),
            r.rows@ == rows@,
            r.spec_len() + 1 == rows@.len(),
    {
        let n = rows.len();
        let mut annots: Vec<A> = Vec::new();
        let mut i: usize = 0;
        while i < n - 1
            invariant
                n >= 1,
                annots@.len() == i,
                i <= n - 1,
            decreases n - 1 - i,
        {
            annots.push(A::default());
            i += 1;
        }
        Block { rows, annots }
    }

    /// A block over the given rows where each annotation is computed from its
    /// index.  `None` if there are no rows at all.
    pub fn with_annots_from_indices<F: Fn(usize) -> A>(rows: Vec<Row>, f: F) -> (r: Option<
        Block<A>,
    >)
        requires
            forall|i: int| 0 <= i < rows@.len() ==> (#[trigger] rows@[i]).wf(),
            forall|i: int| 0 <= i < rows@.len() ==> (#[trigger] rows@[i])@.len() == rows@[0]@.len(),
            forall|i: usize| f.requires((i,)),
        ensures
            match r {
                Some(b) => {
                    &&& b.wf()
                    &&& b.rows@ == rows@
                    &&& b.spec_len() + 1 == rows@.len()
                    &&& forall|i: int|
                        0 <= i < b.annots@.len() ==> call_ensures(
                            f,
                            (i as usize,),
                            #[trigger] b.annots@[i],
                        )
                },
                None => rows@.len() == 0,
            },
    {
        let n = rows.len();
        if n == 0 {
            return None;
        }
        let mut annots: Vec<A> = Vec::new();
        let mut i: usize = 0;
        while i < n - 1
            invariant
                n >= 1,
                annots@.len() == i,
                i <= n - 1,
                forall|i2: usize| f.requires((i2,)),
                forall|j: int|
                    0 <= j < i ==> call_ensures(f, (j as usize,), #[trigger] annots@[j]),
            decreases n - 1 - i,
        {
            let a = f(i);
            annots.push(a);
            i += 1;
        }
        Some(Block { rows, annots })
    }

    /// The same rows with every annotation passed through a function.
    pub fn map_annots<B, F: Fn(A) -> B>(self, f: F) -> (r: Block<B>)
        requires
            forall|a: A| f.requires((a,)),
        ensures
            r.rows@ == self.rows@,
            r.annots@.len() == self.annots@.len(),
            forall|i: int|
                0 <= i < r.annots@.len() ==> call_ensures(
                    f,
                    (self.annots@[i],),
                    #[trigger] r.annots@[i],
                ),
    {
        let Block { rows, annots } = self;
        let ghost annots0 = annots@;
        let mut out: Vec<B> = Vec::new();
        let mut rest = annots;
        let n = rest.len();
        let mut i: usize = 0;
        while i < n
            invariant
                n == annots0.len(),
                i <= n,
                rest@.len() == n - i,
                forall|j: int| 0 <= j < n - i ==> rest@[j] == annots0[i + j],
                out@.len() == i,
                forall|a: A| f.requires((a,)),
                forall|j: int| 0 <= j < i ==> call_ensures(f, (annots0[j],), #[trigger] out@[j]),
            decreases n - i,
        {
            let a = rest.remove(0);
            out.push(f(a));
            i += 1;
        }
        Block { rows, annots: out }
    }

    /// The same rows with every annotation passed, with its index, through a
    /// function.
    pub fn map_annots_with_index<B, F: Fn(usize, A) -> B>(self, f: F) -> (r: Block<B>)
        requires
            forall|i: usize, a: A| f.requires((i, a)),
        ensures
            r.rows@ == self.rows@,
            r.annots@.len() == self.annots@.len(),
            forall|i: int|
                0 <= i < r.annots@.len() ==> call_ensures(
                    f,
                    (i as usize, self.annots@[i]),
                    #[trigger] r.annots@[i],
                ),
    {
        let Block { rows, annots } = self;
        let ghost annots0 = annots@;
        let mut out: Vec<B> = Vec::new();
        let mut rest = annots;
        let n = rest.len();
        let mut i: usize = 0;
        while i < n
            invariant
                n == annots0.len(),
                i <= n,
                rest@.len() == n - i,
                forall|j: int| 0 <= j < n - i ==> rest@[j] == annots0[i + j],
                out@.len() == i,
                forall|i2: usize, a: A| f.requires((i2, a)),
                forall|j: int|
                    0 <= j < i ==> call_ensures(f, (j as usize, annots0[j]), #[trigger] out@[j]),
            decreases n - i,
        {
            let a = rest.remove(0);
            out.push(f(i, a));
            i += 1;
        }
        Block { rows, annots: out }
    }

    /// A copy of the block with every annotation passed, with its index,
    /// through a function; the original is untouched.
    pub fn clone_map_annots_with_index<B, F: Fn(usize, A) -> B>(&self, f: F) -> (r: Block<B>)
        where A: Copy
        requires
            forall|i: usize, a: A| f.requires((i, a)),
        ensures
            r.rows@.len() == self.rows@.len(),
            forall|i: int| 0 <= i < r.rows@.len() ==> (#[trigger] r.rows@[i])@ == self.rows@[i]@,
            r.annots@.len() == self.annots@.len(),
            forall|i: int|
                0 <= i < r.annots@.len() ==> call_ensures(
                    f,
                    (i as usize, self.annots@[i]),
                    #[trigger] r.annots@[i],
                ),
    {
        let mut rows: Vec<Row> = Vec::new();
        let nr = self.rows.len();
        for i in 0..nr
            invariant
                nr == self.rows@.len(),
                rows@.len() == i,
                forall|j: int| 0 <= j < i ==> (#[trigger] rows@[j])@ == self.rows@[j]@,
        {
            rows.push(self.rows[i].clone());
        }
        let mut out: Vec<B> = Vec::new();
        let na = self.annots.len();
        let mut i: usize = 0;
        while i < na
            invariant
                na == self.annots@.len(),
                i <= na,
                out@.len() == i,
                forall|i2: usize, a: A| f.requires((i2, a)),
                forall|j: int|
                    0 <= j < i ==> call_ensures(
                        f,
                        (j as usize, self.annots@[j]),
                        #[trigger] out@[j],
                    ),
            decreases na - i,
        {
            let a = self.annots[i];
            out.push(f(i, a));
            i += 1;
        }
        Block { rows, annots: out }
    }
}

} // verus!

verus! {

impl<A> Block<A> {
    /// The smallest stage this block can be cut down to: every bell above it
    /// stays at home in every row.
    pub fn effective_stage(&self) -> (r: usize)
        requires
            self.wf(),
        ensures
            r <= self.spec_stage(),
            forall|k: int, i: int|
                0 <= k < self.rows@.len() && r <= i < self.spec_stage() ==> #[trigger] self.rows@[k]@[i]
                    == i,
            r > 0 ==> exists|k: int|
                0 <= k < self.rows@.len() && (#[trigger] self.rows@[k])@[r - 1] != (r - 1) as usize,
    {
        let n = self.rows.len();
        let mut best: usize = 0;
        let ghost mut wit: int = 0;
        for k in 0..n
            invariant
                self.wf(),
                n == self.rows@.len(),
                best <= self.spec_stage(),
                forall|k2: int, i: int|
                    0 <= k2 < k && best <= i < self.spec_stage() ==> #[trigger] self.rows@[k2]@[i]
                        == i,
                best > 0 ==> 0 <= wit < n && self.rows@[wit]@[best - 1] != (best - 1) as usize,
        {
            let e = self.rows[k].effective_stage();
            if e > best {
                best = e;
                proof {
                    wit = k as int;
                }
            }
            proof {
                assert forall|k2: int, i: int|
                    0 <= k2 < k + 1 && best <= i < self.spec_stage() implies #[trigger] self.rows@[k2]@[i]
                    == i by {
                    if k2 == k {
                        assert(self.rows@[k2]@[i] == i);
                    }
                }
            }
        }
        best
    }

    /// The annotated rows, as pairs, excluding the left-over row.
    pub fn annot_rows(&self) -> (r: Vec<(A, Row)>) where A: Copy
        requires
            self.wf(),
        ensures
            r@.len() == self.spec_len(),
            forall|i: int|
                0 <= i < r@.len() ==> (#[trigger] r@[i]).0 == self.annots@[i] && r@[i].1@
                    == self.rows@[i]@,
    {
        let n = self.annots.len();
        let mut out: Vec<(A, Row)> = Vec::new();
        for i in 0..n
            invariant
                self.wf(),
                n == self.annots@.len(),
                out@.len() == i,
                forall|j: int|
                    0 <= j < i ==> (#[trigger] out@[j]).0 == self.annots@[j] && out@[j].1@
                        == self.rows@[j]@,
        {
            out.push((self.annots[i], self.rows[i].clone()));
        }
        out
    }

    /// Every row with its annotation; the left-over row carries none.
    pub fn all_annot_rows(&self) -> (r: Vec<(Option<A>, Row)>) where A: Copy
        requires
            self.wf(),
        ensures
            r@.len() == self.rows@.len(),
            forall|i: int|
                0 <= i < self.spec_len() ==> (#[trigger] r@[i]).0 == Some(self.annots@[i])
                    && r@[i].1@ == self.rows@[i]@,
            r@[r@.len() - 1].0 is None,
            r@[r@.len() - 1].1@ == self.spec_leftover(),
    {
        let n = self.annots.len();
        let mut out: Vec<(Option<A>, Row)> = Vec::new();
        for i in 0..n
            invariant
                self.wf(),
                n == self.annots@.len(),
                out@.len() == i,
                forall|j: int|
                    0 <= j < i ==> (#[trigger] out@[j]).0 == Some(self.annots@[j]) && out@[j].1@
                        == self.rows@[j]@,
        {
            out.push((Some(self.annots[i]), self.rows[i].clone()));
        }
        out.push((None, self.rows[n].clone()));
        out
    }
}

} // verus!
