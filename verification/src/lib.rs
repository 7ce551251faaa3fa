//! Monument: a change-ringing composition search engine.
//!
//! A query (methods, calls, music preferences, length range) is turned into a
//! graph of indivisible chunks of ringing, the graph is pruned by optimisation
//! passes, and a best-first search over chunk sequences emits the best-scoring
//! valid compositions.

pub mod block;
pub mod composition;
pub mod falseness;
pub mod graph;
pub mod layout;
pub mod method;
pub mod music;
pub mod passes;
pub mod pn;
pub mod query;
pub mod row;
pub mod search;

use vstd::prelude::*;

verus! {

/// Number of whole leads of a method covered by a chunk of `length` rows that
/// starts `start_sub_lead_idx` rows into a lead of `lead_len` rows.
pub open spec fn spec_num_leads_covered(lead_len: int, start_sub_lead_idx: int, length: int) -> int
    recommends
        lead_len > 0,
        0 <= start_sub_lead_idx < lead_len,
        length > 0,
{
    let rows_after_first_lead = if length > lead_len - start_sub_lead_idx {
        length - (lead_len - start_sub_lead_idx)
    } else {
        0
    };
    rows_after_first_lead / lead_len + if rows_after_first_lead % lead_len > 0 {
        1int
    } else {
        0int
    } + 1
}

/// Return the number of leads covered by some chunk.
pub fn num_leads_covered(lead_len: usize, start_sub_lead_idx: usize, length: usize) -> (r: usize)
    requires
        lead_len > 0,
        start_sub_lead_idx < lead_len,
        length > 0,
    ensures
        r == spec_num_leads_covered(lead_len as int, start_sub_lead_idx as int, length as int),
{
    let dist_to_end_of_first_lead = lead_len - start_sub_lead_idx;
    let rows_after_end_of_first_lead = if length > dist_to_end_of_first_lead {
        length - dist_to_end_of_first_lead
    } else {
        0
    };
    let q = rows_after_end_of_first_lead / lead_len;
    let m = rows_after_end_of_first_lead % lead_len;
    proof {
        assert(rows_after_end_of_first_lead < length);
        assert(q * lead_len + m == rows_after_end_of_first_lead) by {
            vstd::arithmetic::div_mod::lemma_fundamental_div_mod(
                rows_after_end_of_first_lead as int,
                lead_len as int,
            );
            vstd::arithmetic::mul::lemma_mul_is_commutative(q as int, lead_len as int);
        }
        assert(q <= q * lead_len) by (nonlinear_arith)
            requires
                lead_len >= 1,
                q >= 0,
        ;
    }
    q + if m > 0 {
        1
    } else {
        0
    } + 1
}

/// Configuration that changes how a search runs, but never which compositions
/// it emits.
pub struct Config {
    /// How many worker threads to use; `None` picks one per start chunk.
    pub thread_limit: Option<usize>,
    /// The largest graph, in chunks, a search may build.
    pub graph_size_limit: usize,
    /// The most prefixes the frontier may hold before truncation.
    pub queue_limit: usize,
    /// Whether search data is deliberately leaked at shutdown to skip
    /// destructors on a one-shot run.
    pub leak_search_memory: bool,
}

impl Default for Config {
    fn default() -> (r: Self)
        ensures
            r.thread_limit is None,
            r.graph_size_limit == 100000,
            r.queue_limit == 10000000,
            r.leak_search_memory == false,
    {
        Config {
            thread_limit: None,
            graph_size_limit: 100000,
            queue_limit: 10000000,
            leak_search_memory: false,
        }
    }
}

/// The ways that query validation and graph building can fail.
#[derive(Debug)]
pub enum Error {
    /// Different start and end rows were given in a multi-part composition.
    DifferentStartEndRowInMultipart,
    /// A call refers to a lead label that no method defines.
    UndefinedLabel { call_name: String, label: String },
    /// The query has no methods.
    NoMethods,
    /// Two methods use the same shorthand.
    DuplicateShorthand { shorthand: String, title1: String, title2: String },
    /// A course-head mask is not preserved across the parts.
    NoCourseHeadInPart { mask_index: usize, part: usize },
    /// A call does not name a calling position for every place of the stage.
    WrongCallingPositionsLength { call_name: String, calling_position_len: usize, stage: usize },
    /// The graph grew past the configured size limit.
    SizeLimit(usize),
    /// A chunk of odd length under stroke-dependent music could start at either
    /// stroke.
    InconsistentStroke,
    /// The part head does not generate a finite group within the supported size.
    UnreachablePartHead,
    /// The requested length range cannot be hit.
    UnachievableLength {
        min_requested: usize,
        max_requested: usize,
        next_shorter_len: Option<usize>,
        next_longer_len: Option<usize>,
    },
    /// A method's requested count range cannot be hit.
    UnachievableMethodCount {
        method_index: usize,
        next_shorter_len: Option<usize>,
        next_longer_len: Option<usize>,
    },
    /// The minimum method counts add up to more rows than the composition has.
    TooMuchMethodCount { min_total_method_count: usize, max_length: usize },
    /// The maximum method counts cannot fill the composition.
    TooLittleMethodCount { max_total_method_count: usize, min_length: usize },
}

/// A chunk covering exactly one whole lead covers one lead.
pub proof fn lemma_num_leads_whole_lead(lead_len: int)
    requires
        lead_len >= 1,
    ensures
        spec_num_leads_covered(lead_len, 0, lead_len) == 1,
{
    vstd::arithmetic::div_mod::lemma_mod_self_0(lead_len);
    vstd::arithmetic::div_mod::lemma_small_mod(0nat, lead_len as nat);
    vstd::arithmetic::div_mod::lemma_basic_div(0, lead_len);
}

/// A chunk of one lead's length that starts mid-lead covers two leads.
pub proof fn lemma_num_leads_snap(lead_len: int, s: int)
    requires
        lead_len >= 1,
        0 < s < lead_len,
    ensures
        spec_num_leads_covered(lead_len, s, lead_len) == 2,
{
    assert(lead_len > lead_len - s);
    assert(lead_len - (lead_len - s) == s);
    vstd::arithmetic::div_mod::lemma_small_mod(s as nat, lead_len as nat);
    vstd::arithmetic::div_mod::lemma_basic_div(s, lead_len);
}

/// A chunk from the second row of a lead to that lead's end covers one lead.
pub proof fn lemma_num_leads_to_lead_end(lead_len: int)
    requires
        lead_len >= 3,
    ensures
        spec_num_leads_covered(lead_len, 2, lead_len - 2) == 1,
{
    assert(!(lead_len - 2 > lead_len - 2));
    vstd::arithmetic::div_mod::lemma_small_mod(0nat, lead_len as nat);
    vstd::arithmetic::div_mod::lemma_basic_div(0, lead_len);
}

/// Modular addition without overflow: `(a + b) % m`.
pub fn mod_add(a: usize, b: usize, m: usize) -> (r: usize)
    requires
        m >= 1,
    ensures
        r == (a + b) % (m as int),
{
    let x = a % m;
    let y = b % m;
    let r = if y >= m - x {
        y - (m - x)
    } else {
        x + y
    };
    proof {
        let mi = m as int;
        vstd::arithmetic::div_mod::lemma_add_mod_noop(a as int, b as int, mi);
        if y >= m - x {
            assert((x + y) % mi == (x + y - mi) % mi) by {
                vstd::arithmetic::div_mod::lemma_mod_sub_multiples_vanish(x + y, mi);
            }
            vstd::arithmetic::div_mod::lemma_small_mod((x + y - mi) as nat, m as nat);
        } else {
            vstd::arithmetic::div_mod::lemma_small_mod((x + y) as nat, m as nat);
        }
    }
    r
}

/// The decimal digits of a number, most significant first.
pub open spec fn spec_decimal(n: nat) -> Seq<char>
    decreases n,
{
    if n < 10 {
        seq![spec_digit_char(n)]
    } else {
        spec_decimal(n / 10).push(spec_digit_char(n % 10))
    }
}

/// The character for one decimal digit.
pub open spec fn spec_digit_char(d: nat) -> char {
    "0123456789"@[d as int]
}

/// Render a number in decimal.
pub fn usize_to_string(n: usize) -> (r: String)
    ensures
        r@ == spec_decimal(n as nat),
    decreases n,
{
    proof {
        reveal_strlit("0123456789");
    }
    let digits = "0123456789";
    if n < 10 {
        let s = String::new();
        let r = s.concat(digits.substring_char(n, n + 1));
        proof {
            assert(r@ =~= spec_decimal(n as nat));
        }
        r
    } else {
        let high = usize_to_string(n / 10);
        let r = high.concat(digits.substring_char(n % 10, n % 10 + 1));
        proof {
            assert(n % 10 < 10) by {
                vstd::arithmetic::div_mod::lemma_mod_bound(n as int, 10);
            }
            assert(r@ =~= spec_decimal(n as nat));
        }
        r
    }
}

} // verus!
