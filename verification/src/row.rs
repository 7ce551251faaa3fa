//! Row algebra: a row is a permutation of the bells of some stage.

use vstd::prelude::*;

verus! {

/// The names of the bells, in order: bell 0 is "1", bell 9 is "0", bell 10 is "E", ...
pub open spec fn spec_bell_names() -> Seq<char> {
    "1234567890ETABCDFGHJKLMNPRSUVWYZ"@
}

/// The bell `b` occurs somewhere in the sequence.
pub open spec fn seq_has_bell(s: Seq<usize>, b: usize) -> bool {
    exists|i: int| 0 <= i < s.len() && s[i] == b
}

/// A sequence is a valid row of `stage` bells: each bell below the stage appears
/// exactly once.  Injectivity and surjectivity are both carried so that either is
/// available directly.
pub open spec fn is_row_seq(s: Seq<usize>, stage: nat) -> bool {
    &&& s.len() == stage
    &&& forall|i: int| 0 <= i < s.len() ==> s[i] < stage
    &&& forall|i: int, j: int| 0 <= i < j < s.len() ==> s[i] != s[j]
    &&& forall|b: usize| b < stage ==> #[trigger] seq_has_bell(s, b)
}

/// The row `rounds` on a given stage: every bell in its home position.
pub open spec fn rounds_seq(stage: nat) -> Seq<usize> {
    Seq::new(stage, |i: int| i as usize)
}

/// A row: a permutation of the bells `0..stage`.  Multiplication is
/// left-to-right: `(a*b)[i] == a[b[i]]`.
pub struct Row {
    bells: Vec<usize>,
}

impl View for Row {
    type V = Seq<usize>;

    closed spec fn view(&self) -> Seq<usize> {
        self.bells@
    }
}

impl Clone for Row {
    fn clone(&self) -> (r: Self)
        ensures
            r@ == self@,
    {
        Row { bells: self.bells.clone() }
    }
}

impl PartialEq for Row {
    fn eq(&self, other: &Self) -> (r: bool) {
        let n = self.bells.len();
        if n != other.bells.len() {
            return false;
        }
        for i in 0..n
            invariant
                n == self.bells.len(),
                n == other.bells.len(),
                forall|j: int| 0 <= j < i ==> self.bells@[j] == other.bells@[j],
        {
            if self.bells[i] != other.bells[i] {
                return false;
            }
        }
        proof {
            assert(self.bells@ =~= other.bells@);
        }
        true
    }
}

impl Eq for Row {
}

impl vstd::std_specs::cmp::PartialEqSpecImpl for Row {
    open spec fn obeys_eq_spec() -> bool {
        true
    }

    open spec fn eq_spec(&self, other: &Self) -> bool {
        self@ == other@
    }
}

impl Row {
    /// The row is a valid permutation.
    pub open spec fn wf(&self) -> bool {
        is_row_seq(self@, self@.len())
    }

    /// The stage of this row.
    pub open spec fn spec_stage(&self) -> nat {
        self@.len()
    }

    /// Wrap a vector of bells that is already known to be a permutation.
    pub fn from_vec(bells: Vec<usize>) -> (r: Row)
        requires
            is_row_seq(bells@, bells@.len()),
        ensures
            r@ == bells@,
            r.wf(),
    {
        Row { bells }
    }

    /// A row's view fits in a vector, so its length is machine-bounded.
    pub proof fn lemma_view_len(&self)
        ensures
            self@.len() <= usize::MAX,
    {
        vstd::std_specs::vec::axiom_spec_len(&self.bells);
    }

    /// The underlying bells of this row.
    pub fn bells(&self) -> (r: &Vec<usize>)
        ensures
            r@ == self@,
    {
        &self.bells
    }

    pub fn stage(&self) -> (r: usize)
        ensures
            r == self.spec_stage(),
    {
        self.bells.len()
    }

    /// The bell at a given place.
    pub fn bell_at(&self, place: usize) -> (b: usize)
        requires
            place < self@.len(),
        ensures
            b == self@[place as int],
    {
        self.bells[place]
    }

    /// Rounds on a given stage: `[0, 1, .., stage-1]`.
    pub fn rounds(stage: usize) -> (r: Row)
        ensures
            r@ == rounds_seq(stage as nat),
            r.wf(),
            r.spec_stage() == stage,
    {
        let mut bells: Vec<usize> = Vec::new();
        for i in 0..stage
            invariant
                bells@.len() == i,
                forall|j: int| 0 <= j < i ==> bells@[j] == j,
        {
            bells.push(i);
        }
        proof {
            assert(bells@ =~= rounds_seq(stage as nat));
            assert forall|b: usize| b < stage implies #[trigger] seq_has_bell(bells@, b) by {
                assert(bells@[b as int] == b);
            }
        }
        Row { bells }
    }

    /// Whether this row is rounds.
    pub fn is_rounds(&self) -> (r: bool)
        ensures
            r == (self@ == rounds_seq(self@.len())),
    {
        let n = self.bells.len();
        for i in 0..n
            invariant
                n == self.bells@.len(),
                forall|j: int| 0 <= j < i ==> self.bells@[j] == j,
        {
            if self.bells[i] != i {
                proof {
                    assert(self@[i as int] != rounds_seq(self@.len())[i as int]);
                }
                return false;
            }
        }
        proof {
            assert(self@ =~= rounds_seq(self@.len()));
        }
        true
    }

    /// The product `self * rhs`, acting left-to-right: `r[i] == self[rhs[i]]`.
    pub fn mul(&self, rhs: &Row) -> (r: Row)
        requires
            self.wf(),
            rhs.wf(),
            self.spec_stage() == rhs.spec_stage(),
        ensures
            r.wf(),
            r.spec_stage() == self.spec_stage(),
            forall|i: int| 0 <= i < r@.len() ==> r@[i] == self@[rhs@[i] as int],
    {
        let n = self.bells.len();
        let mut bells: Vec<usize> = Vec::new();
        for i in 0..n
            invariant
                self.wf(),
                rhs.wf(),
                n == self@.len(),
                n == rhs@.len(),
                bells@.len() == i,
                forall|j: int| 0 <= j < i ==> bells@[j] == self@[rhs@[j] as int],
        {
            bells.push(self.bells[rhs.bells[i]]);
        }
        proof {
            assert forall|i: int, j: int| 0 <= i < j < bells@.len() implies bells@[i]
                != bells@[j] by {
                if bells@[i] == bells@[j] {
                    assert(self@[rhs@[i] as int] == self@[rhs@[j] as int]);
                    assert(rhs@[i] == rhs@[j]);
                }
            }
            assert forall|b: usize| b < n implies #[trigger] seq_has_bell(bells@, b) by {
                assert(seq_has_bell(self@, b));
                let p = choose|p: int| 0 <= p < self@.len() && self@[p] == b;
                let pu = p as usize;
                assert(seq_has_bell(rhs@, pu));
                let i = choose|i: int| 0 <= i < rhs@.len() && rhs@[i] == pu;
                assert(bells@[i] == self@[rhs@[i] as int]);
                assert(bells@[i] == b);
            }
        }
        Row { bells }
    }

    /// The inverse permutation: `r[self[i]] == i` for every place `i`.
    pub fn inv(&self) -> (r: Row)
        requires
            self.wf(),
        ensures
            r.wf(),
            r.spec_stage() == self.spec_stage(),
            forall|i: int| 0 <= i < self@.len() ==> r@[self@[i] as int] == i,
    {
        let n = self.bells.len();
        let mut bells: Vec<usize> = Vec::new();
        for i in 0..n
            invariant
                bells@.len() == i,
                forall|j: int| 0 <= j < i ==> bells@[j] == 0,
        {
            bells.push(0);
        }
        for i in 0..n
            invariant
                self.wf(),
                n == self@.len(),
                bells@.len() == n,
                forall|j: int| 0 <= j < i ==> bells@[self@[j] as int] == j,
        {
            let b = self.bells[i];
            bells.set(b, i);
            proof {
                assert forall|j: int| 0 <= j < i + 1 implies bells@[self@[j] as int] == j by {
                    if j < i {
                        assert(self@[j] != self@[i as int]);
                    }
                }
            }
        }
        proof {
            assert forall|p: int, q: int| 0 <= p < q < bells@.len() implies bells@[p]
                != bells@[q] by {
                assert(seq_has_bell(self@, p as usize));
                assert(seq_has_bell(self@, q as usize));
                let jp = choose|jp: int| 0 <= jp < self@.len() && self@[jp] == p as usize;
                let jq = choose|jq: int| 0 <= jq < self@.len() && self@[jq] == q as usize;
                assert(bells@[p] == jp as usize);
                assert(bells@[q] == jq as usize);
                if jp == jq {
                    assert(p == q);
                }
            }
            assert forall|i: int| 0 <= i < bells@.len() implies bells@[i] < n by {
                assert(seq_has_bell(self@, i as usize));
                let ju = choose|ju: int| 0 <= ju < self@.len() && self@[ju] == i as usize;
                assert(bells@[i] == ju as usize);
            }
            assert forall|b: usize| b < n implies #[trigger] seq_has_bell(bells@, b) by {
                assert(bells@[self@[b as int] as int] == b);
            }
        }
        Row { bells }
    }

    /// The place occupied by a given bell.
    pub fn place_of(&self, bell: usize) -> (p: usize)
        requires
            self.wf(),
            bell < self.spec_stage(),
        ensures
            p < self@.len(),
            self@[p as int] == bell,
    {
        let n = self.bells.len();
        let mut i: usize = 0;
        while i < n
            invariant
                self.wf(),
                n == self@.len(),
                bell < n,
                i <= n,
                forall|j: int| 0 <= j < i ==> self@[j] != bell,
            decreases n - i,
        {
            if self.bells[i] == bell {
                return i;
            }
            i += 1;
        }
        proof {
            assert(seq_has_bell(self@, bell));
            let w = choose|w: int| 0 <= w < self@.len() && self@[w] == bell;
            assert(false);
        }
        0
    }

    /// Validate a vector of bells as a row: every bell below the stage given by
    /// the vector's length, each exactly once.
    pub fn from_bells(bells: Vec<usize>) -> (r: Option<Row>)
        ensures
            match r {
                Some(row) => row.wf() && row@ == bells@,
                None => !is_row_seq(bells@, bells@.len()),
            },
    {
        let n = bells.len();
        for i in 0..n
            invariant
                n == bells@.len(),
                forall|j: int| 0 <= j < i ==> bells@[j] < n,
        {
            if bells[i] >= n {
                return None;
            }
        }
        for i in 0..n
            invariant
                n == bells@.len(),
                forall|j: int| 0 <= j < n ==> bells@[j] < n,
                forall|p: int, q: int| 0 <= p < q < n && p < i ==> bells@[p] != bells@[q],
        {
            for j in (i + 1)..n
                invariant
                    n == bells@.len(),
                    i < n,
                    forall|j2: int| 0 <= j2 < n ==> bells@[j2] < n,
                    forall|p: int, q: int| 0 <= p < q < n && p < i ==> bells@[p] != bells@[q],
                    forall|q: int| i < q < j ==> bells@[i as int] != bells@[q],
            {
                if bells[i] == bells[j] {
                    return None;
                }
            }
        }
        for b in 0..n
            invariant
                n == bells@.len(),
                forall|j: int| 0 <= j < n ==> bells@[j] < n,
                forall|p: int, q: int| 0 <= p < q < n ==> bells@[p] != bells@[q],
                forall|b2: usize| b2 < b ==> #[trigger] seq_has_bell(bells@, b2),
        {
            let mut present = false;
            for k in 0..n
                invariant
                    n == bells@.len(),
                    b < n,
                    present == exists|k2: int| 0 <= k2 < k && bells@[k2] == b,
            {
                if bells[k] == b {
                    present = true;
                }
            }
            if !present {
                proof {
                    assert(!seq_has_bell(bells@, b)) by {
                        if seq_has_bell(bells@, b) {
                            let w = choose|w: int| 0 <= w < bells@.len() && bells@[w] == b;
                        }
                    }
                }
                return None;
            }
            proof {
                assert(seq_has_bell(bells@, b));
            }
        }
        Some(Row { bells })
    }

    /// The smallest stage this row can be cut down to without disturbing any
    /// bell: everything from that place up is at home.
    pub fn effective_stage(&self) -> (r: usize)
        ensures
            r <= self@.len(),
            forall|i: int| r <= i < self@.len() ==> self@[i] == i,
            r > 0 ==> self@[r - 1] != (r - 1) as usize,
    {
        let mut s = self.bells.len();
        while s > 0
            invariant
                s <= self.bells@.len(),
                forall|i: int| s <= i < self.bells@.len() ==> self.bells@[i] == i,
            decreases s,
        {
            if self.bells[s - 1] != s - 1 {
                return s;
            }
            s -= 1;
        }
        s
    }

    /// Check at run time that this row really is a permutation.
    pub fn check_wf(&self) -> (r: bool)
        ensures
            r == self.wf(),
    {
        let n = self.bells.len();
        for i in 0..n
            invariant
                n == self.bells@.len(),
                forall|j: int| 0 <= j < i ==> self.bells@[j] < n,
        {
            if self.bells[i] >= n {
                return false;
            }
        }
        for i in 0..n
            invariant
                n == self.bells@.len(),
                forall|j: int| 0 <= j < n ==> self.bells@[j] < n,
                forall|p: int, q: int| 0 <= p < q < n && p < i ==> self.bells@[p] != self.bells@[q],
        {
            for j in (i + 1)..n
                invariant
                    n == self.bells@.len(),
                    i < n,
                    forall|j2: int| 0 <= j2 < n ==> self.bells@[j2] < n,
                    forall|p: int, q: int|
                        0 <= p < q < n && p < i ==> self.bells@[p] != self.bells@[q],
                    forall|q: int| i < q < j ==> self.bells@[i as int] != self.bells@[q],
            {
                if self.bells[i] == self.bells[j] {
                    return false;
                }
            }
        }
        for b in 0..n
            invariant
                n == self.bells@.len(),
                forall|j: int| 0 <= j < n ==> self.bells@[j] < n,
                forall|p: int, q: int| 0 <= p < q < n ==> self.bells@[p] != self.bells@[q],
                forall|b2: usize| b2 < b ==> #[trigger] seq_has_bell(self.bells@, b2),
        {
            let mut present = false;
            for k in 0..n
                invariant
                    n == self.bells@.len(),
                    b < n,
                    present == exists|k2: int| 0 <= k2 < k && self.bells@[k2] == b,
            {
                if self.bells[k] == b {
                    present = true;
                }
            }
            if !present {
                proof {
                    assert(!seq_has_bell(self.bells@, b)) by {
                        if seq_has_bell(self.bells@, b) {
                            let w = choose|w: int|
                                0 <= w < self.bells@.len() && self.bells@[w] == b;
                        }
                    }
                }
                return false;
            }
            proof {
                assert(seq_has_bell(self.bells@, b));
            }
        }
        true
    }

    /// Parse a row from its bell names.  Returns `None` unless every character
    /// names a distinct bell below the stage given by the string's length.
    pub fn parse(s: &Vec<char>) -> (r: Option<Row>)
        ensures
            match r {
                Some(row) => {
                    &&& row.wf()
                    &&& row.spec_stage() == s@.len()
                    &&& forall|i: int|
                        0 <= i < s@.len() ==> spec_bell_names()[row@[i] as int] == s@[i]
                },
                None => true,
            },
    {
        let n = s.len();
        let mut bells: Vec<usize> = Vec::new();
        proof {
            reveal_strlit("1234567890ETABCDFGHJKLMNPRSUVWYZ");
        }
        let names = "1234567890ETABCDFGHJKLMNPRSUVWYZ";
        if n > 32 {
            return None;
        }
        proof {
            assert(names@.len() == 32);
        }
        for i in 0..n
            invariant
                n == s@.len(),
                n <= 32,
                bells@.len() == i,
                names@ == spec_bell_names(),
                names@.len() == 32,
                forall|j: int| 0 <= j < i ==> bells@[j] < n,
                forall|j: int| 0 <= j < i ==> spec_bell_names()[bells@[j] as int] == s@[j],
        {
            let c = s[i];
            let mut found: Option<usize> = None;
            let mut b: usize = 0;
            while b < n
                invariant
                    n <= 32,
                    names@ == spec_bell_names(),
                    names@.len() == 32,
                    b <= n,
                    match found {
                        Some(fb) => fb < n && spec_bell_names()[fb as int] == c,
                        None => forall|k: int| 0 <= k < b ==> spec_bell_names()[k] != c,
                    },
                decreases n - b,
            {
                if found.is_none() && names.get_char(b) == c {
                    found = Some(b);
                }
                b += 1;
            }
            match found {
                Some(fb) => bells.push(fb),
                None => {
                    return None;
                },
            }
        }
        // Reject duplicate bells.
        for i in 0..n
            invariant
                n == s@.len(),
                bells@.len() == n,
                forall|j: int| 0 <= j < n ==> bells@[j] < n,
                forall|j: int| 0 <= j < n ==> spec_bell_names()[bells@[j] as int] == s@[j],
                forall|p: int, q: int| 0 <= p < q < n && p < i ==> bells@[p] != bells@[q],
        {
            for j in (i + 1)..n
                invariant
                    n == s@.len(),
                    i < n,
                    bells@.len() == n,
                    forall|j2: int| 0 <= j2 < n ==> bells@[j2] < n,
                    forall|j2: int|
                        0 <= j2 < n ==> spec_bell_names()[bells@[j2] as int] == s@[j2],
                    forall|p: int, q: int| 0 <= p < q < n && p < i ==> bells@[p] != bells@[q],
                    forall|q: int| i < q < j ==> bells@[i as int] != bells@[q],
            {
                if bells[i] == bells[j] {
                    return None;
                }
            }
        }
        // Every bell below the stage occurs: a direct check.
        for b in 0..n
            invariant
                n == s@.len(),
                bells@.len() == n,
                forall|j: int| 0 <= j < n ==> bells@[j] < n,
                forall|j: int| 0 <= j < n ==> spec_bell_names()[bells@[j] as int] == s@[j],
                forall|p: int, q: int| 0 <= p < q < n ==> bells@[p] != bells@[q],
                forall|b2: usize| b2 < b ==> #[trigger] seq_has_bell(bells@, b2),
        {
            let mut present = false;
            for k in 0..n
                invariant
                    n == bells@.len(),
                    b < n,
                    present == exists|k2: int| 0 <= k2 < k && bells@[k2] == b,
            {
                if bells[k] == b {
                    present = true;
                }
            }
            if !present {
                return None;
            }
            proof {
                assert(seq_has_bell(bells@, b));
            }
        }
        Some(Row { bells })
    }

    /// The display name of this row, one character per bell.
    pub fn name(&self) -> (r: String)
        requires
            self.wf(),
            self.spec_stage() <= 32,
        ensures
            r@.len() == self@.len(),
            forall|i: int| 0 <= i < self@.len() ==> r@[i] == spec_bell_names()[self@[i] as int],
    {
        proof {
            reveal_strlit("1234567890ETABCDFGHJKLMNPRSUVWYZ");
        }
        let names = "1234567890ETABCDFGHJKLMNPRSUVWYZ";
        proof {
            assert(names@.len() == 32);
        }
        let mut s = String::new();
        let n = self.bells.len();
        for i in 0..n
            invariant
                self.wf(),
                n == self@.len(),
                n <= 32,
                names@ == spec_bell_names(),
                names@.len() == 32,
                s@.len() == i,
                forall|j: int| 0 <= j < i ==> s@[j] == spec_bell_names()[self@[j] as int],
        {
            let b = self.bells[i];
            s.append(names.substring_char(b, b + 1));
            proof {
                assert(s@.len() == i + 1);
            }
        }
        s
    }
}

} // verus!
