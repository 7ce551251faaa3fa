//! Place notation: which places are made at a single change, and the
//! transposition that the change applies to the row before it.

use vstd::prelude::*;
use crate::row::{Row, spec_bell_names, is_row_seq, seq_has_bell};

verus! {

/// A place notation's places are valid for a stage: strictly ascending, below the
/// stage, and every maximal run of unfixed positions has even length (so that the
/// remaining bells can swap in adjacent pairs).
pub open spec fn places_valid(places: Seq<usize>, stage: nat) -> bool {
    &&& forall|i: int| 0 <= i < places.len() ==> places[i] < stage
    &&& forall|i: int| 0 <= i && i + 1 < places.len() ==> places[i] < #[trigger] places[i + 1]
    &&& valid_gaps(places, stage)
}

/// Every gap between consecutive places (and before the first and after the
/// last) has even length.
pub open spec fn valid_gaps(places: Seq<usize>, stage: nat) -> bool {
    if places.len() == 0 {
        stage % 2 == 0
    } else {
        &&& places[0] % 2 == 0
        &&& (stage - places[places.len() - 1] - 1) % 2 == 0
        &&& forall|i: int| 0 <= i && i + 1 < places.len() ==> ((#[trigger] places[i + 1]) - places[i] - 1) % 2 == 0
    }
}

/// The transposition of a set of places: fixed at each place, and swapping
/// adjacent pairs everywhere else.
pub open spec fn is_pn_transposition(t: Seq<usize>, places: Seq<usize>, stage: nat) -> bool {
    &&& t.len() == stage
    &&& forall|i: int| 0 <= i < t.len() ==> t[i] < stage
    &&& forall|i: int| 0 <= i < t.len() && places.contains(i as usize) ==> t[i] == i
    &&& forall|i: int|
        0 <= i < t.len() && !places.contains(i as usize) ==> t[i] != i && (t[i] == i + 1 || t[i]
            + 1 == i)
    &&& forall|i: int| 0 <= i < t.len() ==> t[t[i] as int] == i
}

/// A single change of place notation.
pub struct PlaceNot {
    pub places: Vec<usize>,
    pub stage: usize,
    pub transposition: Row,
}

impl Clone for PlaceNot {
    fn clone(&self) -> (r: Self)
        ensures
            r.places@ == self.places@,
            r.stage == self.stage,
            r.transposition@ == self.transposition@,
    {
        PlaceNot {
            places: self.places.clone(),
            stage: self.stage,
            transposition: self.transposition.clone(),
        }
    }
}

impl PlaceNot {
    pub open spec fn spec_places(&self) -> Seq<usize> {
        self.places@
    }

    pub open spec fn spec_stage(&self) -> nat {
        self.stage as nat
    }

    pub open spec fn spec_transposition(&self) -> Seq<usize> {
        self.transposition@
    }

    pub open spec fn wf(&self) -> bool {
        &&& places_valid(self.places@, self.stage as nat)
        &&& is_pn_transposition(self.transposition@, self.places@, self.stage as nat)
        &&& self.transposition.wf()
    }

    pub fn stage(&self) -> (r: usize)
        ensures
            r == self.spec_stage(),
    {
        self.stage
    }

    /// Whether a place is made at the given position.
    pub fn contains(&self, place: usize) -> (r: bool)
        ensures
            r == self.places@.contains(place),
    {
        let n = self.places.len();
        for i in 0..n
            invariant
                n == self.places@.len(),
                forall|j: int| 0 <= j < i ==> self.places@[j] != place,
        {
            if self.places[i] == place {
                return true;
            }
        }
        false
    }

    /// The row that this change applies to the row before it.
    pub fn transposition(&self) -> (r: &Row)
        ensures
            r == self.transposition,
            r@ == self.spec_transposition(),
    {
        &self.transposition
    }

    /// Construct from a list of places.  Returns `None` exactly when the places
    /// are not strictly ascending below the stage with even gaps.
    pub fn from_places(places: Vec<usize>, stage: usize) -> (r: Option<PlaceNot>)
        ensures
            match r {
                Some(pn) => {
                    &&& pn.wf()
                    &&& pn.spec_places() == places@
                    &&& pn.spec_stage() == stage
                },
                None => !places_valid(places@, stage as nat),
            },
    {
        let n = places.len();
        // Check ordering and bounds.
        for i in 0..n
            invariant
                n == places@.len(),
                forall|j: int| 0 <= j < i ==> places@[j] < stage,
                forall|p: int, q: int| 0 <= p < q < i ==> places@[p] < places@[q],
        {
            if places[i] >= stage {
                return None;
            }
            if i > 0 && places[i - 1] >= places[i] {
                proof {
                    let k: int = i as int - 1;
                    assert(!(places@[k] < places@[k + 1]));
                }
                return None;
            }
        }
        // Build the transposition, checking gap parities as we go.
        let mut t: Vec<usize> = Vec::new();
        let mut pi: usize = 0;
        let mut i: usize = 0;
        while i < stage
            invariant
                n == places@.len(),
                forall|j: int| 0 <= j < n ==> places@[j] < stage,
                forall|p: int, q: int| 0 <= p < q < n ==> places@[p] < places@[q],
                i <= stage,
                pi <= n,
                t@.len() == i,
                forall|j: int| 0 <= j < pi ==> places@[j] < i,
                forall|j: int| pi <= j < n ==> i <= places@[j],
                pi == 0 ==> i % 2 == 0,
                pi > 0 ==> (i - places@[pi - 1] - 1) % 2 == 0,
                forall|j: int| 0 <= j < i ==> t@[j] < stage,
                forall|j: int| 0 <= j < i ==> t@[j] < i,
                forall|j: int| 0 <= j < i && places@.contains(j as usize) ==> t@[j] == j,
                forall|j: int|
                    0 <= j < i && !places@.contains(j as usize) ==> t@[j] != j && (t@[j] == j + 1
                        || t@[j] + 1 == j),
                forall|j: int| 0 <= j < i ==> t@[t@[j] as int] == j,
            decreases stage - i,
        {
            if pi < n && places[pi] == i {
                t.push(i);
                proof {
                    assert(places@.contains(i));
                }
                pi += 1;
                i += 1;
            } else {
                proof {
                    assert(!places@.contains(i)) by {
                        if places@.contains(i) {
                            let w = choose|w: int| 0 <= w < places@.len() && places@[w] == i;
                            if w < pi {
                                assert(places@[w] < i);
                            } else {
                                assert(pi < n && i <= places@[pi as int]);
                                if w > pi {
                                    assert(places@[pi as int] < places@[w]);
                                }
                            }
                        }
                    }
                }
                if i + 1 >= stage {
                    // The run of unfixed positions reaching the top has odd length.
                    proof {
                        if pi == 0 {
                            if n > 0 {
                                assert(places@[0] >= i && places@[0] != i);
                                assert(places@[0] < stage);
                                assert(false);
                            }
                            assert(stage % 2 == 1);
                        } else {
                            assert(pi == n) by {
                                if pi < n {
                                    assert(places@[pi as int] >= i && places@[pi as int] != i);
                                    assert(places@[pi as int] < stage);
                                }
                            }
                            assert((stage - places@[n - 1] - 1) % 2 == 1);
                        }
                    }
                    return None;
                }
                if pi < n && places[pi] == i + 1 {
                    // The gap below this place has odd length.
                    proof {
                        if pi == 0 {
                            assert(places@[0] % 2 == 1);
                        } else {
                            let k: int = pi as int - 1;
                            assert((places@[k + 1] - places@[k] - 1) % 2 == 1);
                        }
                    }
                    return None;
                }
                t.push(i + 1);
                t.push(i);
                proof {
                    assert(!places@.contains((i + 1) as usize)) by {
                        if places@.contains((i + 1) as usize) {
                            let w = choose|w: int|
                                0 <= w < places@.len() && places@[w] == (i + 1) as usize;
                            if w < pi {
                                assert(places@[w] < i);
                            } else {
                                assert(pi < n && i <= places@[pi as int]);
                                if w > pi {
                                    assert(places@[pi as int] < places@[w]);
                                } else {
                                    assert(places@[pi as int] != i + 1);
                                }
                            }
                        }
                    }
                    assert forall|j: int| pi <= j < n implies i + 2 <= places@[j] by {
                        assert(places@[pi as int] != i && places@[pi as int] != i + 1);
                        if j > pi {
                            assert(places@[pi as int] < places@[j]);
                        }
                    }
                }
                i += 2;
            }
        }
        proof {
            assert(pi == n) by {
                if pi < n {
                    assert(places@[pi as int] >= stage);
                }
            }
            // The gaps are all even, read off the loop's parity bookkeeping at
            // each boundary: each gap was crossed two positions at a time.
            assert(valid_gaps(places@, stage as nat)) by {
                lemma_gaps_from_transposition(t@, places@, stage as nat);
            }
            assert(places_valid(places@, stage as nat));
            // The transposition is a permutation.
            assert forall|p: int, q: int| 0 <= p < q < t@.len() implies t@[p] != t@[q] by {
                if t@[p] == t@[q] {
                    assert(t@[t@[p] as int] == p);
                    assert(t@[t@[q] as int] == q);
                }
            }
            assert forall|b: usize| b < stage implies #[trigger] seq_has_bell(t@, b) by {
                assert(t@[t@[b as int] as int] == b);
            }
            assert(is_row_seq(t@, stage as nat));
        }
        Some(PlaceNot { places, stage, transposition: Row::from_vec(t) })
    }

    /// Parse place notation such as `"14"` from bell names.  `None` if a
    /// character is not a bell of the stage, or the places are invalid.
    pub fn parse(s: &str, stage: usize) -> (r: Option<PlaceNot>)
        ensures
            match r {
                Some(pn) => {
                    &&& pn.wf()
                    &&& pn.spec_stage() == stage
                    &&& pn.spec_places().len() == s@.len()
                    &&& forall|i: int|
                        0 <= i < s@.len() ==> spec_bell_names()[pn.spec_places()[i] as int]
                            == s@[i]
                },
                None => true,
            },
    {
        let len = s.unicode_len();
        if stage > 32 {
            return None;
        }
        proof {
            reveal_strlit("1234567890ETABCDFGHJKLMNPRSUVWYZ");
        }
        let names = "1234567890ETABCDFGHJKLMNPRSUVWYZ";
        proof {
            assert(names@.len() == 32);
        }
        let mut places: Vec<usize> = Vec::new();
        for i in 0..len
            invariant
                len == s@.len(),
                stage <= 32,
                names@ == spec_bell_names(),
                names@.len() == 32,
                places@.len() == i,
                forall|j: int| 0 <= j < i ==> places@[j] < stage,
                forall|j: int| 0 <= j < i ==> spec_bell_names()[places@[j] as int] == s@[j],
        {
            let c = s.get_char(i);
            let mut found: Option<usize> = None;
            let mut b: usize = 0;
            while b < stage
                invariant
                    stage <= 32,
                    names@ == spec_bell_names(),
                    names@.len() == 32,
                    b <= stage,
                    match found {
                        Some(fb) => fb < stage && spec_bell_names()[fb as int] == c,
                        None => true,
                    },
                decreases stage - b,
            {
                if found.is_none() && names.get_char(b) == c {
                    found = Some(b);
                }
                b += 1;
            }
            match found {
                Some(fb) => places.push(fb),
                None => {
                    return None;
                },
            }
        }
        Self::from_places(places, stage)
    }

    /// The cross change: no places, every adjacent pair swaps.
    pub fn cross(stage: usize) -> (r: Option<PlaceNot>)
        ensures
            match r {
                Some(pn) => {
                    &&& pn.wf()
                    &&& pn.spec_stage() == stage
                    &&& pn.spec_places().len() == 0
                },
                None => stage % 2 == 1,
            },
    {
        let r = Self::from_places(Vec::new(), stage);
        proof {
            if r is None {
                assert(!places_valid(Seq::<usize>::empty(), stage as nat));
            }
        }
        r
    }
}

/// Gap parities of a place list follow from the existence of its transposition:
/// each unfixed run pairs off in adjacent swaps, so every run has even length.
proof fn lemma_gaps_from_transposition(t: Seq<usize>, places: Seq<usize>, stage: nat)
    requires
        stage <= usize::MAX,
        forall|i: int| 0 <= i < places.len() ==> places[i] < stage,
        forall|p: int, q: int| 0 <= p < q < places.len() ==> places[p] < places[q],
        is_pn_transposition(t, places, stage),
    ensures
        valid_gaps(places, stage),
{
    if places.len() == 0 {
        lemma_pair_region(t, places, stage, 0, stage as int);
    } else {
        assert(places[0] % 2 == 0) by {
            assert forall|j: int| 0 <= j < places[0] implies !(#[trigger] places.contains(j as usize)) by {
                if places.contains(j as usize) {
                    let w = choose|w: int| 0 <= w < places.len() && places[w] == j as usize;
                    if w > 0 {
                        assert(places[0] < places[w]);
                    }
                }
            }
            assert(places.contains(places[0])) by {
                assert(places[0] == places[0]);
            }
            lemma_pair_region(t, places, stage, 0, places[0] as int);
        }
        assert((stage - places[places.len() - 1] - 1) % 2 == 0) by {
            let last = places.len() - 1;
            assert forall|j: int|
                places[last] + 1 <= j < stage implies !(#[trigger] places.contains(
                j as usize,
            )) by {
                if places.contains(j as usize) {
                    let w = choose|w: int| 0 <= w < places.len() && places[w] == j as usize;
                    if w < last {
                        assert(places[w] < places[last]);
                    }
                }
            }
            assert(places.contains(places[last])) by {
                assert(places[last] == places[last]);
            }
            assert(t[places[last] as int] == places[last]);
            lemma_pair_region(t, places, stage, places[last] + 1, stage as int);
        }
        assert forall|i: int|
            0 <= i && i + 1 < places.len() implies ((#[trigger] places[i + 1]) - places[i] - 1)
            % 2 == 0 by {
            assert forall|j: int|
                places[i] + 1 <= j < places[i + 1] implies !(#[trigger] places.contains(
                j as usize,
            )) by {
                if places.contains(j as usize) {
                    let w = choose|w: int| 0 <= w < places.len() && places[w] == j as usize;
                    if w <= i {
                        if w < i {
                            assert(places[w] < places[i]);
                        }
                    } else {
                        if w > i + 1 {
                            assert(places[i + 1] < places[w]);
                        }
                    }
                }
            }
            assert(places.contains(places[i])) by {
                assert(places[i] == places[i]);
            }
            assert(t[places[i] as int] == places[i]);
            assert(places.contains(places[i + 1])) by {
                assert(places[i + 1] == places[i + 1]);
            }
            lemma_pair_region(t, places, stage, places[i] + 1, places[i + 1] as int);
        }
    }
}

/// A run of unfixed positions, bounded above by a place or the stage's end and
/// entered from below a fixed-or-downward position, pairs off in adjacent swaps
/// and so has even length.
proof fn lemma_pair_region(t: Seq<usize>, places: Seq<usize>, stage: nat, lo: int, hi: int)
    requires
        stage <= usize::MAX,
        is_pn_transposition(t, places, stage),
        0 <= lo <= hi <= stage,
        forall|j: int| lo <= j < hi ==> !(#[trigger] places.contains(j as usize)),
        hi == stage || places.contains(hi as usize),
        lo == 0 || t[lo - 1] <= lo - 1,
    ensures
        (hi - lo) % 2 == 0,
    decreases hi - lo,
{
    if lo < hi {
        assert(!places.contains(lo as usize));
        assert(t[lo] != lo && (t[lo] == lo + 1 || t[lo] + 1 == lo));
        if t[lo] + 1 == lo {
            // The partner below would have to point back up, contradicting the
            // entry condition.
            assert(lo > 0);
            assert(t[lo] == lo - 1);
            assert(t[t[lo] as int] == lo);
            assert(false);
        }
        assert(t[lo] == lo + 1);
        assert(t[lo + 1] == lo) by {
            assert(t[t[lo] as int] == lo);
        }
        if lo + 1 == hi {
            if hi == stage {
                assert(t[lo] < stage);
                assert(false);
            } else {
                assert(places.contains(hi as usize));
                assert(t[hi] == hi);
                assert(false);
            }
        }
        lemma_pair_region(t, places, stage, lo + 2, hi);
    }
}

} // verus!
