//! A method: a rule generating rows lead by lead, given by one place notation
//! per row of the lead.

use vstd::prelude::*;
use crate::block::{Block, seq_compose};
use crate::pn::PlaceNot;
use crate::row::{Row, rounds_seq};

verus! {

/// The most leads a plain course is allowed before generation gives up.
pub const MAX_COURSE_LEADS: usize = 100000;

/// The `k`-th power of a row under left-to-right multiplication.
pub open spec fn row_pow(g: Seq<usize>, k: nat) -> Seq<usize>
    decreases k,
{
    if k == 0 {
        rounds_seq(g.len())
    } else {
        seq_compose(row_pow(g, (k - 1) as nat), g)
    }
}

/// A method, with a label attached to some indices within its lead (calls are
/// applied at labelled indices; by convention index 0 is the lead end).
pub struct Method {
    pub name: String,
    pub stage: usize,
    pub pns: Vec<PlaceNot>,
    pub lead: Block<usize>,
    pub labels: Vec<(usize, String)>,
}

impl Method {
    /// The lead block follows the place notations row by row, starting from
    /// rounds; its left-over row is the lead head.
    pub open spec fn wf(&self) -> bool {
        &&& self.stage >= 1
        &&& self.pns@.len() >= 1
        &&& forall|i: int|
            0 <= i < self.pns@.len() ==> (#[trigger] self.pns@[i]).wf() && self.pns@[i].spec_stage()
                == self.stage
        &&& self.lead.wf()
        &&& self.lead.spec_stage() == self.stage
        &&& self.lead.spec_len() == self.pns@.len()
        &&& self.lead.rows@[0]@ == rounds_seq(self.stage as nat)
        &&& forall|i: int|
            0 <= i < self.pns@.len() ==> (#[trigger] self.lead.rows@[i + 1])@ == seq_compose(
                self.lead.rows@[i]@,
                self.pns@[i].spec_transposition(),
            )
        &&& forall|i: int| 0 <= i < self.lead.annots@.len() ==> self.lead.annots@[i] == i
        &&& forall|i: int|
            0 <= i < self.labels@.len() ==> (#[trigger] self.labels@[i]).0 < self.pns@.len()
    }

    /// The number of rows in one lead.
    pub open spec fn spec_lead_len(&self) -> nat {
        self.pns@.len()
    }

    /// The view of the lead head: the row that starts the second lead.
    pub open spec fn spec_lead_head(&self) -> Seq<usize> {
        self.lead.spec_leftover()
    }

    pub fn lead_len(&self) -> (r: usize)
        ensures
            r == self.spec_lead_len(),
    {
        self.pns.len()
    }

    pub fn lead_head(&self) -> (r: &Row)
        requires
            self.wf(),
        ensures
            r@ == self.spec_lead_head(),
    {
        self.lead.leftover_row()
    }

    /// Build a method from one place notation per row of the lead.  `None` if
    /// the notations are empty or not all of the given stage.
    pub fn from_place_nots(name: String, stage: usize, pns: Vec<PlaceNot>) -> (r: Option<Method>)
        requires
            forall|i: int| 0 <= i < pns@.len() ==> (#[trigger] pns@[i]).wf(),
        ensures
            match r {
                Some(m) => {
                    &&& m.wf()
                    &&& m.stage == stage
                    &&& m.pns@ == pns@
                    &&& m.labels@.len() == 0
                    &&& m.spec_lead_len() == pns@.len()
                },
                None => stage == 0 || pns@.len() == 0 || exists|i: int|
                    0 <= i < pns@.len() && (#[trigger] pns@[i]).spec_stage() != stage,
            },
    {
        if stage == 0 || pns.len() == 0 {
            return None;
        }
        let n = pns.len();
        let mut lead: Block<usize> = Block::empty(stage);
        let mut i: usize = 0;
        while i < n
            invariant
                stage >= 1,
                n == pns@.len(),
                i <= n,
                forall|j: int| 0 <= j < n ==> (#[trigger] pns@[j]).wf(),
                forall|j: int| 0 <= j < i ==> (#[trigger] pns@[j]).spec_stage() == stage,
                lead.wf(),
                lead.spec_stage() == stage,
                lead.spec_len() == i,
                lead.rows@[0]@ == rounds_seq(stage as nat),
                forall|j: int|
                    0 <= j < i ==> (#[trigger] lead.rows@[j + 1])@ == seq_compose(
                        lead.rows@[j]@,
                        pns@[j].spec_transposition(),
                    ),
                forall|j: int| 0 <= j < lead.annots@.len() ==> lead.annots@[j] == j,
            decreases n - i,
        {
            let pn = &pns[i];
            if pn.stage() != stage {
                return None;
            }
            let leftover = lead.leftover_row().clone();
            let next = leftover.mul(pn.transposition());
            proof {
                assert(next@ =~= seq_compose(
                    lead.rows@[lead.rows@.len() - 1]@,
                    pns@[i as int].spec_transposition(),
                ));
            }
            lead.push_row(i, next);
            i += 1;
        }
        Some(Method { name, stage, pns, lead, labels: Vec::new() })
    }

    /// Attach a label to an index within the lead.
    pub fn add_label(&mut self, index: usize, label: String)
        requires
            old(self).wf(),
            index < old(self).spec_lead_len(),
        ensures
            final(self).wf(),
            final(self).labels@ == old(self).labels@.push((index, label)),
            final(self).pns@ == old(self).pns@,
            final(self).lead == old(self).lead,
            final(self).stage == old(self).stage,
    {
        self.labels.push((index, label));
    }

    /// Where `length` more rows from `start_sub_lead_idx` end up within a lead.
    pub fn add_sub_lead_idx(&self, start_sub_lead_idx: usize, length: usize) -> (r: usize)
        requires
            self.wf(),
        ensures
            r == (start_sub_lead_idx + length) % (self.spec_lead_len() as int),
    {
        let lead_len = self.pns.len();
        let s = start_sub_lead_idx % lead_len;
        let l = length % lead_len;
        let r = if l >= lead_len - s {
            l - (lead_len - s)
        } else {
            s + l
        };
        proof {
            let ll = lead_len as int;
            vstd::arithmetic::div_mod::lemma_add_mod_noop(
                start_sub_lead_idx as int,
                length as int,
                ll,
            );
            if l >= lead_len - s {
                assert((s + l) % ll == (s + l - ll) % ll) by {
                    vstd::arithmetic::div_mod::lemma_mod_sub_multiples_vanish(s + l, ll);
                }
                vstd::arithmetic::div_mod::lemma_small_mod((s + l - ll) as nat, ll as nat);
            } else {
                vstd::arithmetic::div_mod::lemma_small_mod((s + l) as nat, ll as nat);
            }
        }
        r
    }

    /// The plain course: leads rung in sequence until the lead head returns to
    /// rounds.  Each row is annotated with its index within its lead.  Returns
    /// `None` only if rounds does not recur within `MAX_COURSE_LEADS` leads.
    pub fn plain_course(&self) -> (r: Option<Block<usize>>)
        requires
            self.wf(),
        ensures
            match r {
                Some(pc) => {
                    &&& pc.wf()
                    &&& pc.spec_stage() == self.stage
                    &&& pc.spec_len() % self.spec_lead_len() == 0
                    &&& pc.spec_len() / self.spec_lead_len() >= 1
                    &&& row_pow(
                        self.spec_lead_head(),
                        pc.spec_len() / self.spec_lead_len(),
                    ) == rounds_seq(self.stage as nat)
                    &&& forall|k: nat|
                        1 <= k < pc.spec_len() / self.spec_lead_len() ==> row_pow(
                            self.spec_lead_head(),
                            k,
                        ) != rounds_seq(self.stage as nat)
                    &&& pc.spec_leftover() == rounds_seq(self.stage as nat)
                    &&& forall|i: int|
                        0 <= i < pc.spec_len() ==> (#[trigger] pc.rows@[i])@ == seq_compose(
                            row_pow(
                                self.spec_lead_head(),
                                (i / (self.spec_lead_len() as int)) as nat,
                            ),
                            self.lead.rows@[i % (self.spec_lead_len() as int)]@,
                        )
                    &&& forall|i: int|
                        0 <= i < pc.spec_len() ==> (#[trigger] pc.annots@[i]) == i % (
                        self.spec_lead_len() as int)
                },
                None => forall|k: nat|
                    1 <= k <= MAX_COURSE_LEADS ==> row_pow(self.spec_lead_head(), k)
                        != rounds_seq(self.stage as nat),
            },
    {
        let stage = self.stage;
        let lead_len = self.pns.len();
        let lead_head = self.lead.leftover_row();
        let mut pc: Block<usize> = Block::empty(stage);
        let mut lh_pow = Row::rounds(stage);
        let mut l: usize = 0;
        loop
            invariant
                self.wf(),
                stage == self.stage,
                lead_len == self.spec_lead_len(),
                lead_head == self.lead.rows@.last(),
                lh_pow.wf(),
                lh_pow@.len() == stage,
                lh_pow@ == row_pow(self.spec_lead_head(), l as nat),
                l <= MAX_COURSE_LEADS,
                pc.wf(),
                pc.spec_stage() == stage,
                pc.spec_len() == l * lead_len,
                pc.spec_leftover() == lh_pow@,
                forall|k: nat|
                    1 <= k <= l ==> row_pow(self.spec_lead_head(), k) != rounds_seq(
                        stage as nat,
                    ),
                forall|i: int|
                    0 <= i < pc.spec_len() ==> (#[trigger] pc.rows@[i])@ == seq_compose(
                        row_pow(self.spec_lead_head(), (i / (lead_len as int)) as nat),
                        self.lead.rows@[i % (lead_len as int)]@,
                    ),
                forall|i: int|
                    0 <= i < pc.spec_len() ==> (#[trigger] pc.annots@[i]) == i % (
                    lead_len as int),
            decreases MAX_COURSE_LEADS - l,
        {
            if l == MAX_COURSE_LEADS {
                return None;
            }
            // Ring one lead, transposed by the current lead-head power.
            proof {
                assert(seq_compose(lh_pow@, self.lead.rows@[0]@) =~= lh_pow@);
            }
            let mut j: usize = 0;
            while j < lead_len
                invariant
                    self.wf(),
                    stage == self.stage,
                    lead_len == self.spec_lead_len(),
                    lh_pow.wf(),
                    lh_pow@.len() == stage,
                    lh_pow@ == row_pow(self.spec_lead_head(), l as nat),
                    l < MAX_COURSE_LEADS,
                    j <= lead_len,
                    pc.wf(),
                    pc.spec_stage() == stage,
                    pc.spec_len() == l * lead_len + j,
                    pc.spec_leftover() == seq_compose(lh_pow@, self.lead.rows@[j as int]@),
                    forall|i: int|
                        0 <= i < pc.spec_len() ==> (#[trigger] pc.rows@[i])@ == seq_compose(
                            row_pow(self.spec_lead_head(), (i / (lead_len as int)) as nat),
                            self.lead.rows@[i % (lead_len as int)]@,
                        ),
                    forall|i: int|
                        0 <= i < pc.spec_len() ==> (#[trigger] pc.annots@[i]) == i % (
                        lead_len as int),
                decreases lead_len - j,
            {
                let next = lh_pow.mul(&self.lead.rows[j + 1]);
                proof {
                    assert(next@ =~= seq_compose(lh_pow@, self.lead.rows@[j + 1]@));
                    let i_new: int = l * lead_len + j;
                    vstd::arithmetic::div_mod::lemma_fundamental_div_mod_converse(
                        i_new,
                        lead_len as int,
                        l as int,
                        j as int,
                    );
                }
                pc.push_row(j, next);
                j += 1;
            }
            l += 1;
            let new_pow = lh_pow.mul(lead_head);
            proof {
                assert(new_pow@ =~= seq_compose(lh_pow@, self.spec_lead_head()));
                assert(row_pow(self.spec_lead_head(), l as nat) == seq_compose(
                    row_pow(self.spec_lead_head(), (l - 1) as nat),
                    self.spec_lead_head(),
                ));
                assert((l as int) * (lead_len as int) == ((l - 1) as int) * (lead_len as int)
                    + lead_len as int) by (nonlinear_arith);
            }
            lh_pow = new_pow;
            if lh_pow.is_rounds() {
                proof {
                    let ll = lead_len as int;
                    let len = pc.spec_len() as int;
                    assert(len % ll == 0 && len / ll == l as int) by (nonlinear_arith)
                        requires
                            len == (l as int) * ll,
                            ll >= 1,
                            l >= 0,
                    ;
                }
                return Some(pc);
            }
        }
    }
}

} // verus!

verus! {

/// Parse a whole block of place notation, such as `"x58x14.58x18,18"`.
/// Tokens are separated by `.`; `x` or `-` is the cross change; each
/// comma-separated section is rung as a palindrome (the section followed by its
/// own reverse without the last change).  `None` if any token is invalid.
pub fn parse_pn_block(s: &str, stage: usize) -> (r: Option<Vec<PlaceNot>>)
    ensures
        match r {
            Some(pns) => {
                &&& pns@.len() >= 1
                &&& forall|i: int|
                    0 <= i < pns@.len() ==> (#[trigger] pns@[i]).wf() && pns@[i].spec_stage()
                        == stage
            },
            None => true,
        },
{
    let len = s.unicode_len();
    if len >= usize::MAX - 1 {
        return None;
    }
    let mut parts: Vec<Vec<PlaceNot>> = Vec::new();
    let mut cur: Vec<PlaceNot> = Vec::new();
    let mut tok_start: usize = 0;
    let mut i: usize = 0;
    while i <= len
        invariant
            len == s@.len(),
            len < usize::MAX - 1,
            i <= len + 1,
            tok_start <= i,
            forall|p: int, q: int|
                0 <= p < parts@.len() && 0 <= q < parts@[p]@.len() ==> (#[trigger] parts@[p]@[q]).wf()
                    && parts@[p]@[q].spec_stage() == stage,
            forall|q: int|
                0 <= q < cur@.len() ==> (#[trigger] cur@[q]).wf() && cur@[q].spec_stage() == stage,
        decreases len + 1 - i,
    {
        let c = if i < len {
            s.get_char(i)
        } else {
            ','
        };
        let is_sep = c == 'x' || c == '-' || c == '.' || c == ',';
        if is_sep {
            if tok_start < i {
                let tok = s.substring_char(tok_start, i);
                match PlaceNot::parse(tok, stage) {
                    Some(pn) => cur.push(pn),
                    None => {
                        return None;
                    },
                }
            }
            if c == 'x' || c == '-' {
                match PlaceNot::cross(stage) {
                    Some(pn) => cur.push(pn),
                    None => {
                        return None;
                    },
                }
            }
            if c == ',' {
                parts.push(cur);
                cur = Vec::new();
            }
            tok_start = i + 1;
        }
        i += 1;
    }
    // Expand each comma-separated section as a palindrome.
    let mut out: Vec<PlaceNot> = Vec::new();
    let num_parts = parts.len();
    for p in 0..num_parts
        invariant
            num_parts == parts@.len(),
            forall|p2: int, q: int|
                0 <= p2 < parts@.len() && 0 <= q < parts@[p2].len() ==> (
                #[trigger] parts@[p2][q]).wf() && parts@[p2][q].spec_stage() == stage,
            forall|q: int|
                0 <= q < out@.len() ==> (#[trigger] out@[q]).wf() && out@[q].spec_stage() == stage,
    {
        let plen = parts[p].len();
        for k in 0..plen
            invariant
                num_parts == parts@.len(),
                p < num_parts,
                plen == parts@[p as int]@.len(),
                forall|p2: int, q: int|
                    0 <= p2 < parts@.len() && 0 <= q < parts@[p2]@.len() ==> (#[trigger] parts@[p2]@[q]).wf()
                        && parts@[p2]@[q].spec_stage() == stage,
                forall|q: int|
                    0 <= q < out@.len() ==> (#[trigger] out@[q]).wf() && out@[q].spec_stage()
                        == stage,
        {
            let pn = parts[p][k].clone();
            proof {
                assert(parts@[p as int]@[k as int].wf());
                assert(pn.wf() && pn.spec_stage() == stage);
            }
            out.push(pn);
        }
        if plen > 1 {
            let mut k: usize = plen - 1;
            while k > 0
                invariant
                    num_parts == parts@.len(),
                    p < num_parts,
                    plen == parts@[p as int]@.len(),
                    k <= plen - 1,
                    forall|p2: int, q: int|
                        0 <= p2 < parts@.len() && 0 <= q < parts@[p2]@.len() ==> (
                        #[trigger] parts@[p2]@[q]).wf() && parts@[p2]@[q].spec_stage() == stage,
                    forall|q: int|
                        0 <= q < out@.len() ==> (#[trigger] out@[q]).wf() && out@[q].spec_stage()
                            == stage,
                decreases k,
            {
                k -= 1;
                let pn = parts[p][k].clone();
                proof {
                    assert(parts@[p as int]@[k as int].wf());
                    assert(pn.wf() && pn.spec_stage() == stage);
                }
                out.push(pn);
            }
        }
    }
    if out.len() == 0 {
        return None;
    }
    Some(out)
}

} // verus!

verus! {

impl Method {
    /// Build a method by parsing a block of place notation.
    pub fn from_place_not_string(name: String, stage: usize, pn_str: &str) -> (r: Option<Method>)
        ensures
            match r {
                Some(m) => m.wf() && m.stage == stage,
                None => true,
            },
    {
        match parse_pn_block(pn_str, stage) {
            Some(pns) => Method::from_place_nots(name, stage, pns),
            None => None,
        }
    }
}

} // verus!
