//! Music scoring: patterns matched against rows, per-type weights and counts.
//! Scores are integer weights; a caller that thinks in fractional weights
//! scales them to integers first.

use vstd::prelude::*;
use crate::row::Row;

verus! {

/// A stroke: whether a row is rung at hand- or backstroke.
#[derive(PartialEq, Eq, Structural, Clone, Copy, Debug)]
pub enum Stroke {
    Hand,
    Back,
}

impl Stroke {
    /// The stroke `idx` rows after a row rung at `self`.
    pub fn offset(self, idx: usize) -> (r: Stroke)
        ensures
            r == (if idx % 2 == 0 {
                self
            } else {
                self.spec_flip()
            }),
    {
        if idx % 2 == 0 {
            self
        } else {
            self.flip()
        }
    }

    pub open spec fn spec_flip(self) -> Stroke {
        match self {
            Stroke::Hand => Stroke::Back,
            Stroke::Back => Stroke::Hand,
        }
    }

    pub fn flip(self) -> (r: Stroke)
        ensures
            r == self.spec_flip(),
    {
        match self {
            Stroke::Hand => Stroke::Back,
            Stroke::Back => Stroke::Hand,
        }
    }
}

/// Which strokes a music type is scored at.
#[derive(PartialEq, Eq, Structural, Clone, Copy, Debug)]
pub enum StrokeSet {
    Hand,
    Back,
    Both,
}

impl StrokeSet {
    /// Whether rows at the given stroke are scored.
    pub fn contains(self, stroke: Stroke) -> (r: bool)
        ensures
            r == self.spec_contains(stroke),
    {
        match (self, stroke) {
            (StrokeSet::Both, _) => true,
            (StrokeSet::Hand, Stroke::Hand) => true,
            (StrokeSet::Back, Stroke::Back) => true,
            (StrokeSet::Hand, Stroke::Back) => false,
            (StrokeSet::Back, Stroke::Hand) => false,
        }
    }

    pub open spec fn spec_contains(self, stroke: Stroke) -> bool {
        match (self, stroke) {
            (StrokeSet::Both, _) => true,
            (StrokeSet::Hand, Stroke::Hand) => true,
            (StrokeSet::Back, Stroke::Back) => true,
            _ => false,
        }
    }
}

/// One element of a pattern: a fixed bell, or a run of any bells.
#[derive(PartialEq, Eq, Structural, Clone, Copy, Debug)]
pub enum PatternElem {
    Bell(usize),
    Star,
}

/// A pattern over rows: fixed bells with at most one `Star` filling the rest.
pub struct Pattern {
    pub elems: Vec<PatternElem>,
    pub stage: usize,
}

/// The index of the first star in a pattern.
pub open spec fn star_index(elems: Seq<PatternElem>) -> int {
    choose|i: int|
        0 <= i < elems.len() && elems[i] is Star && forall|j: int| 0 <= j < i ==> !(elems[j] is Star)
}

/// Whether a row matches a pattern: the fixed bells before a star match from
/// the front, those after it match from the back, and a starless pattern must
/// cover the whole row.
pub open spec fn pattern_matches(elems: Seq<PatternElem>, stage: nat, row: Seq<usize>) -> bool {
    if exists|i: int| 0 <= i < elems.len() && elems[i] is Star {
        let si = star_index(elems);
        let pre_len = si;
        let post_len = elems.len() - si - 1;
        &&& row.len() >= pre_len + post_len
        &&& forall|j: int| 0 <= j < pre_len ==> elems[j] == PatternElem::Bell(row[j])
        &&& forall|j: int|
            0 <= j < post_len ==> (#[trigger] elems[si + 1 + j]) == PatternElem::Bell(
                row[row.len() - post_len + j],
            )
    } else {
        &&& row.len() == elems.len()
        &&& forall|j: int| 0 <= j < elems.len() ==> elems[j] == PatternElem::Bell(row[j])
    }
}

impl Pattern {
    /// At most one star, and every fixed bell below the stage.
    pub open spec fn wf(&self) -> bool {
        &&& forall|i: int, j: int|
            0 <= i < j < self.elems@.len() ==> !((#[trigger] self.elems@[i]) is Star && (
            #[trigger] self.elems@[j]) is Star)
        &&& forall|i: int|
            0 <= i < self.elems@.len() ==> ((#[trigger] self.elems@[i]) matches PatternElem::Bell(b)
                ==> b < self.stage)
        &&& self.elems@.len() <= self.stage + 1
    }

    /// Build a pattern from its elements.  `None` if two stars appear, a bell
    /// is out of range, or the fixed bells cannot fit the stage.
    pub fn from_elems(elems: Vec<PatternElem>, stage: usize) -> (r: Option<Pattern>)
        ensures
            match r {
                Some(p) => p.wf() && p.elems@ == elems@ && p.stage == stage,
                None => true,
            },
    {
        let n = elems.len();
        if stage == usize::MAX || n > stage + 1 {
            return None;
        }
        let mut seen_star = false;
        for i in 0..n
            invariant
                n == elems@.len(),
                seen_star == exists|j: int| 0 <= j < i && elems@[j] is Star,
                forall|p: int, q: int|
                    0 <= p < q < i ==> !((#[trigger] elems@[p]) is Star && (#[trigger] elems@[q]) is Star),
                forall|j: int|
                    0 <= j < i ==> ((#[trigger] elems@[j]) matches PatternElem::Bell(b) ==> b
                        < stage),
        {
            match elems[i] {
                PatternElem::Star => {
                    if seen_star {
                        return None;
                    }
                    seen_star = true;
                },
                PatternElem::Bell(b) => {
                    if b >= stage {
                        return None;
                    }
                },
            }
        }
        Some(Pattern { elems, stage })
    }

    /// Whether a row matches this pattern.
    pub fn matches(&self, row: &Row) -> (r: bool)
        requires
            self.wf(),
            row.wf(),
            row.spec_stage() == self.stage,
        ensures
            r == pattern_matches(self.elems@, self.stage as nat, row@),
    {
        let n = self.elems.len();
        // Find the star, if any.
        let mut star: Option<usize> = None;
        let mut i: usize = 0;
        while i < n
            invariant
                n == self.elems@.len(),
                i <= n,
                match star {
                    Some(si) => si < i && self.elems@[si as int] is Star && forall|j: int|
                        0 <= j < si ==> !(self.elems@[j] is Star),
                    None => forall|j: int| 0 <= j < i ==> !(self.elems@[j] is Star),
                },
            decreases n - i,
        {
            if star.is_none() && matches!(self.elems[i], PatternElem::Star) {
                star = Some(i);
            }
            i += 1;
        }
        match star {
            None => {
                proof {
                    assert(!exists|j: int| 0 <= j < n && self.elems@[j] is Star);
                }
                if self.elems.len() != row.stage() {
                    return false;
                }
                for j in 0..n
                    invariant
                        self.wf(),
                        row.wf(),
                        n == self.elems@.len(),
                        n == row@.len(),
                        forall|k: int| 0 <= k < n ==> !((#[trigger] self.elems@[k]) is Star),
                        forall|k: int|
                            0 <= k < j ==> self.elems@[k] == PatternElem::Bell(row@[k]),
                {
                    match self.elems[j] {
                        PatternElem::Bell(b) => {
                            if row.bell_at(j) != b {
                                proof {
                                    assert(self.elems@[j as int] != PatternElem::Bell(
                                        row@[j as int],
                                    ));
                                }
                                return false;
                            }
                        },
                        PatternElem::Star => {
                            proof {
                                assert(false);
                            }
                        },
                    }
                }
                true
            },
            Some(si) => {
                proof {
                    assert(star_index(self.elems@) == si) by {
                        let w = star_index(self.elems@);
                        assert(0 <= w < self.elems@.len() && self.elems@[w] is Star && forall|
                            j: int,
                        | 0 <= j < w ==> !(self.elems@[j] is Star));
                        if w < si {
                            assert(!(self.elems@[w] is Star));
                        }
                        if si < w {
                            assert(!(self.elems@[si as int] is Star));
                        }
                    }
                }
                let pre_len = si;
                let post_len = n - si - 1;
                let stage = row.stage();
                if stage < pre_len + post_len {
                    return false;
                }
                for j in 0..pre_len
                    invariant
                        self.wf(),
                        row.wf(),
                        n == self.elems@.len(),
                        stage == row@.len(),
                        si < n,
                        pre_len == si,
                        post_len == n - si - 1,
                        stage >= pre_len + post_len,
                        self.elems@[si as int] is Star,
                        star_index(self.elems@) == si,
                        forall|k: int| 0 <= k < si ==> !((#[trigger] self.elems@[k]) is Star),
                        forall|k: int|
                            0 <= k < j ==> self.elems@[k] == PatternElem::Bell(row@[k]),
                {
                    match self.elems[j] {
                        PatternElem::Bell(b) => {
                            if row.bell_at(j) != b {
                                proof {
                                    assert(self.elems@[j as int] != PatternElem::Bell(
                                        row@[j as int],
                                    ));
                                }
                                return false;
                            }
                        },
                        PatternElem::Star => {
                            proof {
                                assert(j < si);
                                assert(false);
                            }
                        },
                    }
                }
                for j in 0..post_len
                    invariant
                        self.wf(),
                        row.wf(),
                        n == self.elems@.len(),
                        stage == row@.len(),
                        si < n,
                        pre_len == si,
                        post_len == n - si - 1,
                        stage >= pre_len + post_len,
                        self.elems@[si as int] is Star,
                        star_index(self.elems@) == si,
                        forall|k: int| 0 <= k < si ==> !((#[trigger] self.elems@[k]) is Star),
                        forall|k: int|
                            0 <= k < pre_len ==> self.elems@[k] == PatternElem::Bell(row@[k]),
                        forall|k: int|
                            0 <= k < post_len && k < j ==> (#[trigger] self.elems@[si + 1 + k])
                                == PatternElem::Bell(row@[stage - post_len + k]),
                {
                    match self.elems[si + 1 + j] {
                        PatternElem::Bell(b) => {
                            if row.bell_at(stage - post_len + j) != b {
                                proof {
                                    assert(self.elems@[si + 1 + j as int] != PatternElem::Bell(
                                        row@[stage - post_len + j as int],
                                    ));
                                }
                                return false;
                            }
                        },
                        PatternElem::Star => {
                            proof {
                                assert(si + 1 + j > si);
                                assert(false);
                            }
                        },
                    }
                }
                true
            },
        }
    }
}

/// A row mask: each place either requires a particular bell or is free.
pub struct Mask {
    pub slots: Vec<Option<usize>>,
}

impl Mask {
    pub open spec fn wf(&self, stage: nat) -> bool {
        &&& self.slots@.len() == stage
        &&& forall|i: int|
            0 <= i < self.slots@.len() ==> ((#[trigger] self.slots@[i]) matches Some(b) ==> b
                < stage)
    }

    pub open spec fn spec_matches(&self, row: Seq<usize>) -> bool {
        forall|i: int|
            0 <= i < self.slots@.len() ==> ((#[trigger] self.slots@[i]) matches Some(b) ==> row[i]
                == b)
    }

    /// A mask that pins every place of the given row.
    pub fn full_row(row: &Row) -> (r: Mask)
        requires
            row.wf(),
        ensures
            r.wf(row.spec_stage()),
            forall|i: int| 0 <= i < row@.len() ==> r.slots@[i] == Some(row@[i]),
    {
        let n = row.stage();
        let mut slots: Vec<Option<usize>> = Vec::new();
        for i in 0..n
            invariant
                row.wf(),
                n == row@.len(),
                slots@.len() == i,
                forall|j: int| 0 <= j < i ==> slots@[j] == Some(row@[j]),
        {
            slots.push(Some(row.bell_at(i)));
        }
        Mask { slots }
    }

    /// A mask that fixes each listed bell in its home place and leaves the
    /// other places free.
    pub fn with_fixed_bells(stage: usize, fixed_bells: &Vec<usize>) -> (r: Option<Mask>)
        ensures
            match r {
                Some(m) => {
                    &&& m.wf(stage as nat)
                    &&& forall|i: int|
                        0 <= i < stage ==> m.slots@[i] == (if fixed_bells@.contains(i as usize) {
                            Some(i as usize)
                        } else {
                            None::<usize>
                        })
                },
                None => exists|i: int| 0 <= i < fixed_bells@.len() && fixed_bells@[i] >= stage,
            },
    {
        let nb = fixed_bells.len();
        for i in 0..nb
            invariant
                nb == fixed_bells@.len(),
                forall|j: int| 0 <= j < i ==> fixed_bells@[j] < stage,
        {
            if fixed_bells[i] >= stage {
                return None;
            }
        }
        let mut slots: Vec<Option<usize>> = Vec::new();
        for i in 0..stage
            invariant
                nb == fixed_bells@.len(),
                forall|j: int| 0 <= j < nb ==> fixed_bells@[j] < stage,
                slots@.len() == i,
                forall|j: int|
                    0 <= j < i ==> slots@[j] == (if fixed_bells@.contains(j as usize) {
                        Some(j as usize)
                    } else {
                        None::<usize>
                    }),
        {
            let mut fixed = false;
            for k in 0..nb
                invariant
                    nb == fixed_bells@.len(),
                    fixed == exists|k2: int| 0 <= k2 < k && fixed_bells@[k2] == i,
            {
                if fixed_bells[k] == i {
                    fixed = true;
                }
            }
            if fixed {
                proof {
                    assert(fixed_bells@.contains(i));
                }
                slots.push(Some(i));
            } else {
                proof {
                    assert(!fixed_bells@.contains(i));
                }
                slots.push(None);
            }
        }
        Some(Mask { slots })
    }

    /// Whether a row satisfies this mask.
    pub fn matches(&self, row: &Row) -> (r: bool)
        requires
            row@.len() == self.slots@.len(),
        ensures
            r == self.spec_matches(row@),
    {
        let n = self.slots.len();
        for i in 0..n
            invariant
                n == self.slots@.len(),
                n == row@.len(),
                forall|j: int|
                    0 <= j < i ==> ((#[trigger] self.slots@[j]) matches Some(b) ==> row@[j] == b),
        {
            match self.slots[i] {
                Some(b) => {
                    if row.bell_at(i) != b {
                        return false;
                    }
                },
                None => {},
            }
        }
        true
    }
}

/// A class of music, with the weight its instances add to the score.
pub struct MusicType {
    pub patterns: Vec<Pattern>,
    pub weight: i64,
    pub count_range: OptRange,
    pub non_duffer: bool,
    pub stroke_set: StrokeSet,
}

/// An optional inclusive range.
#[derive(PartialEq, Eq, Structural, Clone, Copy, Debug)]
pub struct OptRange {
    pub min: Option<usize>,
    pub max: Option<usize>,
}

impl OptRange {
    /// The range with no bounds at all.
    pub fn open() -> (r: OptRange)
        ensures
            r.min is None && r.max is None,
    {
        OptRange { min: None, max: None }
    }

    /// Fall back on another range's bounds where this one has none.
    pub fn or(self, other: OptRange) -> (r: OptRange)
        ensures
            r.min == (if self.min is Some {
                self.min
            } else {
                other.min
            }),
            r.max == (if self.max is Some {
                self.max
            } else {
                other.max
            }),
    {
        OptRange {
            min: if self.min.is_some() {
                self.min
            } else {
                other.min
            },
            max: if self.max.is_some() {
                self.max
            } else {
                other.max
            },
        }
    }
}

impl MusicType {
    pub open spec fn wf(&self, stage: nat) -> bool {
        forall|i: int|
            0 <= i < self.patterns@.len() ==> (#[trigger] self.patterns@[i]).wf()
                && self.patterns@[i].stage == stage
    }

    pub fn non_duffer(&self) -> (r: bool)
        ensures
            r == self.non_duffer,
    {
        self.non_duffer
    }

    pub fn count_range(&self) -> (r: OptRange)
        ensures
            r == self.count_range,
    {
        self.count_range
    }

    pub fn stroke_set(&self) -> (r: StrokeSet)
        ensures
            r == self.stroke_set,
    {
        self.stroke_set
    }

    /// How many of this type's patterns a single row matches.
    pub open spec fn spec_matches_of_row(&self, row: Seq<usize>) -> nat {
        num_matches_up_to(self.patterns@, self.stage_of(), row, self.patterns@.len() as int)
    }

    pub open spec fn stage_of(&self) -> nat {
        if self.patterns@.len() > 0 {
            self.patterns@[0].stage as nat
        } else {
            0
        }
    }
}

/// How many of the first `k` patterns match the row.
pub open spec fn num_matches_up_to(
    patterns: Seq<Pattern>,
    stage: nat,
    row: Seq<usize>,
    k: int,
) -> nat
    decreases k,
{
    if k <= 0 {
        0
    } else {
        num_matches_up_to(patterns, stage, row, k - 1) + (if pattern_matches(
            patterns[k - 1].elems@,
            stage,
            row,
        ) {
            1nat
        } else {
            0nat
        })
    }
}

} // verus!

verus! {

/// Saturating addition on machine words.
pub open spec fn sat_add_usize(a: nat, b: nat) -> nat {
    if a + b > usize::MAX {
        usize::MAX as nat
    } else {
        (a + b) as nat
    }
}

/// Saturating addition on signed scores.
pub open spec fn sat_add_i64(a: int, b: int) -> int {
    if a + b > i64::MAX {
        i64::MAX as int
    } else if a + b < i64::MIN {
        i64::MIN as int
    } else {
        a + b
    }
}

/// Saturating multiplication on signed scores.
pub open spec fn sat_mul_i64(a: int, b: int) -> int {
    if a * b > i64::MAX {
        i64::MAX as int
    } else if a * b < i64::MIN {
        i64::MIN as int
    } else {
        a * b
    }
}

/// Saturating add for scores.
pub fn score_add(a: i64, b: i64) -> (r: i64)
    ensures
        r == sat_add_i64(a as int, b as int),
{
    match a.checked_add(b) {
        Some(v) => v,
        None => {
            if b > 0 {
                i64::MAX
            } else {
                i64::MIN
            }
        },
    }
}

/// Saturating multiply for scores.
pub fn score_mul(a: i64, b: i64) -> (r: i64)
    ensures
        r == sat_mul_i64(a as int, b as int),
{
    match a.checked_mul(b) {
        Some(v) => v,
        None => {
            proof {
                assert(a != 0 && b != 0);
            }
            if (a > 0) == (b > 0) {
                proof {
                    assert((a as int) * (b as int) > 0) by (nonlinear_arith)
                        requires
                            (a > 0 && b > 0) || (a < 0 && b < 0),
                    ;
                }
                i64::MAX
            } else {
                proof {
                    assert((a as int) * (b as int) < 0) by (nonlinear_arith)
                        requires
                            (a > 0 && b < 0) || (a < 0 && b > 0),
                    ;
                }
                i64::MIN
            }
        },
    }
}

/// The stroke of the row `i` places after a row rung at `start`.
pub open spec fn stroke_at(start: Stroke, i: int) -> Stroke {
    if i % 2 == 0 {
        start
    } else {
        start.spec_flip()
    }
}

/// The number of matches of one music type over the first `k` rows of a course
/// segment, each row pre-multiplied by the course head, saturating at the
/// machine's limit.
pub open spec fn type_count(
    rows: Seq<Row>,
    ch: Seq<usize>,
    ty: MusicType,
    start: Stroke,
    k: int,
) -> nat
    decreases k,
{
    if k <= 0 {
        0
    } else {
        let prev = type_count(rows, ch, ty, start, k - 1);
        let add = if ty.stroke_set.spec_contains(stroke_at(start, k - 1)) {
            num_matches_up_to(
                ty.patterns@,
                ch.len(),
                crate::block::seq_compose(ch, rows[k - 1]@),
                ty.patterns@.len() as int,
            )
        } else {
            0
        };
        sat_add_usize(prev, add)
    }
}

/// A count clamped into the range of a signed score operand.
pub open spec fn clamped_count(c: nat) -> int {
    if c <= i64::MAX {
        c as int
    } else {
        i64::MAX as int
    }
}

/// The saturated weighted sum of the first `k` music types' counts.
pub open spec fn weighted_score(types: Seq<MusicType>, counts: Seq<usize>, k: int) -> int
    decreases k,
{
    if k <= 0 {
        0
    } else {
        sat_add_i64(
            weighted_score(types, counts, k - 1),
            sat_mul_i64(types[k - 1].weight as int, clamped_count(counts[k - 1] as nat)),
        )
    }
}

/// A breakdown of the music over some rows: the total score, and the number of
/// occurrences of each music type.
pub struct Breakdown {
    pub score: i64,
    pub counts: Vec<usize>,
}

impl Breakdown {
    /// The breakdown of no rows at all.
    pub fn zero(num_music_types: usize) -> (r: Breakdown)
        ensures
            r.score == 0,
            r.counts@.len() == num_music_types,
            forall|i: int| 0 <= i < num_music_types ==> r.counts@[i] == 0,
    {
        let mut counts: Vec<usize> = Vec::new();
        for i in 0..num_music_types
            invariant
                counts@.len() == i,
                forall|j: int| 0 <= j < i ==> counts@[j] == 0,
        {
            counts.push(0);
        }
        Breakdown { score: 0, counts }
    }

    /// The music generated by a sequence of rows, each pre-multiplied by a
    /// course head, starting at the given stroke.
    pub fn from_rows(
        rows: &Vec<Row>,
        course_head: &Row,
        music_types: &Vec<MusicType>,
        start_stroke: Stroke,
    ) -> (r: Breakdown)
        requires
            course_head.wf(),
            forall|i: int|
                0 <= i < rows@.len() ==> (#[trigger] rows@[i]).wf() && rows@[i]@.len()
                    == course_head@.len(),
            forall|t: int|
                0 <= t < music_types@.len() ==> (#[trigger] music_types@[t]).wf(
                    course_head@.len(),
                ),
        ensures
            r.counts@.len() == music_types@.len(),
            forall|t: int|
                0 <= t < music_types@.len() ==> (#[trigger] r.counts@[t]) == type_count(
                    rows@,
                    course_head@,
                    music_types@[t],
                    start_stroke,
                    rows@.len() as int,
                ),
            r.score == weighted_score(music_types@, r.counts@, music_types@.len() as int),
    {
        let num_types = music_types.len();
        let num_rows = rows.len();
        let mut counts: Vec<usize> = Vec::new();
        let mut t: usize = 0;
        while t < num_types
            invariant
                course_head.wf(),
                forall|i: int|
                    0 <= i < rows@.len() ==> (#[trigger] rows@[i]).wf() && rows@[i]@.len()
                        == course_head@.len(),
                forall|t2: int|
                    0 <= t2 < music_types@.len() ==> (#[trigger] music_types@[t2]).wf(
                        course_head@.len(),
                    ),
                num_types == music_types@.len(),
                num_rows == rows@.len(),
                t <= num_types,
                counts@.len() == t,
                forall|t2: int|
                    0 <= t2 < t ==> (#[trigger] counts@[t2]) == type_count(
                        rows@,
                        course_head@,
                        music_types@[t2],
                        start_stroke,
                        rows@.len() as int,
                    ),
            decreases num_types - t,
        {
            let ty = &music_types[t];
            let num_patterns = ty.patterns.len();
            let mut count: usize = 0;
            let mut i: usize = 0;
            while i < num_rows
                invariant
                    course_head.wf(),
                    forall|i2: int|
                        0 <= i2 < rows@.len() ==> (#[trigger] rows@[i2]).wf() && rows@[i2]@.len()
                            == course_head@.len(),
                    num_types == music_types@.len(),
                    num_rows == rows@.len(),
                    t < num_types,
                    ty == music_types@[t as int],
                    ty.wf(course_head@.len()),
                    num_patterns == ty.patterns@.len(),
                    i <= num_rows,
                    count == type_count(
                        rows@,
                        course_head@,
                        music_types@[t as int],
                        start_stroke,
                        i as int,
                    ),
                decreases num_rows - i,
            {
                let stroke = start_stroke.offset(i);
                if ty.stroke_set.contains(stroke) {
                    let transposed = course_head.mul(&rows[i]);
                    proof {
                        assert(transposed@ =~= crate::block::seq_compose(
                            course_head@,
                            rows@[i as int]@,
                        ));
                    }
                    let mut m: usize = 0;
                    let mut pi: usize = 0;
                    while pi < num_patterns
                        invariant
                            course_head.wf(),
                            transposed.wf(),
                            transposed@ == crate::block::seq_compose(
                                course_head@,
                                rows@[i as int]@,
                            ),
                            transposed@.len() == course_head@.len(),
                            num_types == music_types@.len(),
                            t < num_types,
                            ty == music_types@[t as int],
                            ty.wf(course_head@.len()),
                            num_patterns == ty.patterns@.len(),
                            pi <= num_patterns,
                            m <= pi,
                            m == num_matches_up_to(
                                ty.patterns@,
                                course_head@.len(),
                                transposed@,
                                pi as int,
                            ),
                        decreases num_patterns - pi,
                    {
                        if ty.patterns[pi].matches(&transposed) {
                            m += 1;
                        }
                        pi += 1;
                    }
                    count = count.saturating_add(m);
                    proof {
                        assert(stroke_at(start_stroke, i as int) == stroke);
                    }
                } else {
                    proof {
                        assert(stroke_at(start_stroke, i as int) == stroke);
                        assert(type_count(
                            rows@,
                            course_head@,
                            music_types@[t as int],
                            start_stroke,
                            i + 1,
                        ) == count);
                    }
                }
                i += 1;
            }
            counts.push(count);
            t += 1;
        }
        // Weighted score over the counts.
        let mut score: i64 = 0;
        let mut k: usize = 0;
        while k < num_types
            invariant
                num_types == music_types@.len(),
                counts@.len() == num_types,
                k <= num_types,
                score == weighted_score(music_types@, counts@, k as int),
            decreases num_types - k,
        {
            score = score_add(score, score_mul(music_types[k].weight, counts_to_i64(counts[k])));
            k += 1;
        }
        Breakdown { score, counts }
    }

    /// Add another breakdown's score and counts into this one, saturating.
    pub fn accumulate(&mut self, rhs: &Breakdown)
        requires
            old(self).counts@.len() == rhs.counts@.len(),
        ensures
            final(self).score == sat_add_i64(old(self).score as int, rhs.score as int),
            final(self).counts@.len() == old(self).counts@.len(),
            forall|i: int|
                0 <= i < final(self).counts@.len() ==> (#[trigger] final(self).counts@[i])
                    == sat_add_usize(old(self).counts@[i] as nat, rhs.counts@[i] as nat),
    {
        self.score = score_add(self.score, rhs.score);
        let n = self.counts.len();
        let mut i: usize = 0;
        while i < n
            invariant
                n == self.counts@.len(),
                n == rhs.counts@.len(),
                n == old(self).counts@.len(),
                self.score == final(self).score || true,
                i <= n,
                self.score == sat_add_i64(old(self).score as int, rhs.score as int),
                forall|j: int| i <= j < n ==> self.counts@[j] == old(self).counts@[j],
                forall|j: int|
                    0 <= j < i ==> (#[trigger] self.counts@[j]) == sat_add_usize(
                        old(self).counts@[j] as nat,
                        rhs.counts@[j] as nat,
                    ),
            decreases n - i,
        {
            let v = self.counts[i].saturating_add(rhs.counts[i]);
            self.counts.set(i, v);
            i += 1;
        }
    }
}

/// Clamp a count into a signed score operand.
pub fn counts_to_i64(c: usize) -> (r: i64)
    ensures
        r as int == clamped_count(c as nat),
{
    let v = c as u64;
    if v <= 9223372036854775807u64 {
        v as i64
    } else {
        i64::MAX
    }
}

} // verus!
