//! Queries: methods, calls, music types, part head and length range, and the
//! builder API that assembles them.

use vstd::prelude::*;
use crate::Error;
use crate::method::Method;
use crate::music::{Mask, MusicType, OptRange, Pattern, Stroke};
use crate::pn::PlaceNot;
use crate::row::Row;

verus! {

/// A call: how it is displayed, where it attaches, and what it does.
pub struct Call {
    pub display_symbol: String,
    pub debug_symbol: String,
    pub calling_positions: Vec<String>,
    pub label_from: String,
    pub label_to: String,
    pub place_notation: PlaceNot,
    pub weight: i64,
}

/// The named calling positions, from leading: the name at position `i` of the
/// stage.
pub open spec fn spec_calling_position(places: Seq<usize>, stage: int, i: int) -> Seq<char> {
    if i >= 4 && i == stage - 1 {
        seq!['H']
    } else if i >= 4 && i == stage - 2 {
        if stage % 2 == 0 {
            seq!['W']
        } else {
            seq!['M']
        }
    } else if i >= 4 && i == stage - 3 {
        if stage % 2 == 0 {
            seq!['M']
        } else {
            seq!['W']
        }
    } else if places.contains(1usize) && i == 1 {
        seq!['B']
    } else if places.contains(1usize) && i == 2 {
        seq!['T']
    } else {
        spec_base_position(i)
    }
}

/// The position names before any replacement: single letters, then numbers
/// written out with a `ths` suffix.
pub open spec fn spec_base_position(i: int) -> Seq<char> {
    if 0 <= i < 9 {
        seq!["LIBFVXSEN"@[i]]
    } else {
        crate::spec_decimal((i + 1) as nat) + "ths"@
    }
}

/// The default calling positions for a call: one name per place of the stage,
/// with `B`/`T` replacing `I`/`B` for calls that make seconds, and `M`/`W`/`H`
/// (or `W`/`M`/`H` on odd stages) at the back.
pub fn default_calling_positions(place_not: &PlaceNot) -> (r: Vec<String>)
    requires
        place_not.wf(),
    ensures
        r@.len() == place_not.spec_stage(),
        forall|i: int|
            0 <= i < r@.len() ==> (#[trigger] r@[i])@ == spec_calling_position(
                place_not.spec_places(),
                place_not.spec_stage() as int,
                i,
            ),
{
    proof {
        reveal_strlit("LIBFVXSEN");
        reveal_strlit("ths");
        reveal_strlit("H");
        reveal_strlit("W");
        reveal_strlit("M");
        reveal_strlit("B");
        reveal_strlit("T");
    }
    let named = "LIBFVXSEN";
    let stage = place_not.stage();
    let has_seconds = place_not.contains(1);
    let mut positions: Vec<String> = Vec::new();
    let mut i: usize = 0;
    while i < stage
        invariant
            place_not.wf(),
            stage == place_not.spec_stage(),
            named@ == "LIBFVXSEN"@,
            named@.len() == 9,
            has_seconds == place_not.spec_places().contains(1usize),
            i <= stage,
            positions@.len() == i,
            forall|j: int|
                0 <= j < i ==> (#[trigger] positions@[j])@ == spec_calling_position(
                    place_not.spec_places(),
                    place_not.spec_stage() as int,
                    j,
                ),
        decreases stage - i,
    {
        let name: String = if i >= 4 && i == stage - 1 {
            let s = String::new();
            s.concat("H")
        } else if i >= 4 && stage >= 2 && i == stage - 2 {
            let s = String::new();
            if stage % 2 == 0 {
                s.concat("W")
            } else {
                s.concat("M")
            }
        } else if i >= 4 && stage >= 3 && i == stage - 3 {
            let s = String::new();
            if stage % 2 == 0 {
                s.concat("M")
            } else {
                s.concat("W")
            }
        } else if has_seconds && i == 1 {
            let s = String::new();
            s.concat("B")
        } else if has_seconds && i == 2 {
            let s = String::new();
            s.concat("T")
        } else if i < 9 {
            let s = String::new();
            s.concat(named.substring_char(i, i + 1))
        } else {
            let s = crate::usize_to_string(i + 1);
            s.concat("ths")
        };
        proof {
            reveal_strlit("LIBFVXSEN");
            reveal_strlit("ths");
            reveal_strlit("H");
            reveal_strlit("W");
            reveal_strlit("M");
            reveal_strlit("B");
            reveal_strlit("T");
            assert(name@ == spec_calling_position(
                place_not.spec_places(),
                place_not.spec_stage() as int,
                i as int,
            )) by {
                if i >= 4 && i == stage - 1 {
                    assert(name@ =~= seq!['H']);
                } else if i >= 4 && i + 2 == stage {
                    if stage % 2 == 0 {
                        assert(name@ =~= seq!['W']);
                    } else {
                        assert(name@ =~= seq!['M']);
                    }
                } else if i >= 4 && i + 3 == stage {
                    if stage % 2 == 0 {
                        assert(name@ =~= seq!['M']);
                    } else {
                        assert(name@ =~= seq!['W']);
                    }
                } else if has_seconds && i == 1 {
                    assert(name@ =~= seq!['B']);
                } else if has_seconds && i == 2 {
                    assert(name@ =~= seq!['T']);
                } else if i < 9 {
                    assert(name@ =~= seq!["LIBFVXSEN"@[i as int]]);
                }
            }
        }
        positions.push(name);
        i += 1;
    }
    positions
}

/// A shorthand for a method: the first character of its title.
pub fn default_shorthand(title: &str) -> (r: String)
    requires
        title@.len() >= 1,
    ensures
        r@ == title@.subrange(0, 1),
{
    let s = String::new();
    s.concat(title.substring_char(0, 1))
}

/// Builder for a call.
pub struct CallBuilder {
    pub symbol: String,
    pub debug_symbol: Option<String>,
    pub calling_positions: Option<Vec<String>>,
    pub label_from: String,
    pub label_to: String,
    pub place_notation: PlaceNot,
    pub weight: i64,
}

/// The label that marks lead ends, where calls attach by default.
pub fn label_lead_end() -> (r: String)
    ensures
        r@ == "LE"@,
{
    let s = String::new();
    s.concat("LE")
}

impl CallBuilder {
    /// Start building a call that replaces the lead end with the given place
    /// notation.
    pub fn new(symbol: String, place_notation: PlaceNot) -> (r: CallBuilder)
        requires
            place_notation.wf(),
        ensures
            r.symbol@ == symbol@,
            r.debug_symbol is None,
            r.calling_positions is None,
            r.place_notation == place_notation,
            r.place_notation.wf(),
            r.label_from@ == "LE"@,
            r.label_to@ == "LE"@,
    {
        CallBuilder {
            symbol,
            debug_symbol: None,
            calling_positions: None,
            label_from: label_lead_end(),
            label_to: label_lead_end(),
            place_notation,
            weight: -3,
        }
    }

    /// Display one symbol but debug another.
    pub fn debug_symbol(self, symbol: String) -> (r: CallBuilder)
        ensures
            r.debug_symbol matches Some(s) && s@ == symbol@,
            r.symbol == self.symbol,
            r.place_notation == self.place_notation,
            r.calling_positions == self.calling_positions,
            r.weight == self.weight,
    {
        CallBuilder { debug_symbol: Some(symbol), ..self }
    }

    /// Force a set of calling positions, one per place including leading.
    pub fn calling_positions(self, positions: Vec<String>) -> (r: CallBuilder)
        ensures
            r.calling_positions == Some(positions),
            r.symbol == self.symbol,
            r.place_notation == self.place_notation,
            r.weight == self.weight,
    {
        CallBuilder { calling_positions: Some(positions), ..self }
    }

    /// Set the (negative) weight added for each use of this call.
    pub fn weight(self, weight: i64) -> (r: CallBuilder)
        ensures
            r.weight == weight,
            r.symbol == self.symbol,
            r.place_notation == self.place_notation,
            r.calling_positions == self.calling_positions,
    {
        CallBuilder { weight, ..self }
    }

    /// Finish building the call, filling in the default calling positions if
    /// none were forced.
    pub fn build(self) -> (r: Call)
        requires
            self.place_notation.wf(),
        ensures
            r.place_notation == self.place_notation,
            r.weight == self.weight,
            self.calling_positions is None ==> r.calling_positions@.len()
                == self.place_notation.spec_stage(),
    {
        let CallBuilder {
            symbol,
            debug_symbol,
            calling_positions,
            label_from,
            label_to,
            place_notation,
            weight,
        } = self;
        let debug = match debug_symbol {
            Some(d) => d,
            None => symbol.clone(),
        };
        let positions = match calling_positions {
            Some(p) => p,
            None => default_calling_positions(&place_notation),
        };
        Call {
            display_symbol: symbol,
            debug_symbol: debug,
            calling_positions: positions,
            label_from,
            label_to,
            place_notation,
            weight,
        }
    }
}

/// Create a call that replaces the lead end with the given place notation.
pub fn lead_end_call(place_not: PlaceNot, display_symbol: &str, debug_symbol: &str, weight: i64) -> (r:
    Call)
    requires
        place_not.wf(),
    ensures
        r.place_notation == place_not,
        r.weight == weight,
        r.calling_positions@.len() == place_not.spec_stage(),
        r.display_symbol@ == display_symbol@,
        r.debug_symbol@ == debug_symbol@,
{
    let s1 = String::new();
    let s2 = String::new();
    Call {
        display_symbol: s1.concat(display_symbol),
        debug_symbol: s2.concat(debug_symbol),
        calling_positions: default_calling_positions(&place_not),
        label_from: label_lead_end(),
        label_to: label_lead_end(),
        place_notation: place_not,
        weight,
    }
}

/// Which flavour of standard calls to generate.
#[derive(PartialEq, Eq, Structural, Clone, Copy, Debug)]
pub enum BaseCallType {
    /// Fourths-place bobs and 1234 singles.
    Near,
    /// (n-2)ths-place bobs and singles near the back.
    Far,
}

/// The standard bobs and singles.
pub struct BaseCalls {
    pub ty: BaseCallType,
    pub bob_weight: Option<i64>,
    pub single_weight: Option<i64>,
}

impl Default for BaseCalls {
    /// Near bobs and singles with small negative weights.
    fn default() -> (r: Self)
        ensures
            r.ty == BaseCallType::Near,
            r.bob_weight == Some(-18i64),
            r.single_weight == Some(-23i64),
    {
        BaseCalls { ty: BaseCallType::Near, bob_weight: Some(-18), single_weight: Some(-23) }
    }
}

impl BaseCalls {
    /// Generate the calls.  `None` if the stage cannot take them.
    pub fn into_calls(self, stage: usize) -> (r: Option<Vec<Call>>)
        ensures
            match r {
                Some(calls) => forall|i: int|
                    0 <= i < calls@.len() ==> (#[trigger] calls@[i]).place_notation.wf()
                        && calls@[i].place_notation.spec_stage() == stage
                        && calls@[i].calling_positions@.len() == stage,
                None => true,
            },
    {
        if stage < 4 {
            return None;
        }
        let mut calls: Vec<Call> = Vec::new();
        match self.bob_weight {
            Some(w) => {
                let mut places: Vec<usize> = Vec::new();
                match self.ty {
                    BaseCallType::Near => {
                        places.push(0);
                        places.push(3);
                    },
                    BaseCallType::Far => {
                        places.push(0);
                        places.push(stage - 3);
                    },
                }
                match PlaceNot::from_places(places, stage) {
                    Some(pn) => calls.push(lead_end_call(pn, "", "-", w)),
                    None => {
                        return None;
                    },
                }
            },
            None => {},
        }
        match self.single_weight {
            Some(w) => {
                let mut places: Vec<usize> = Vec::new();
                match self.ty {
                    BaseCallType::Near => {
                        places.push(0);
                        places.push(1);
                        places.push(2);
                        places.push(3);
                    },
                    BaseCallType::Far => {
                        places.push(0);
                        places.push(stage - 3);
                        places.push(stage - 2);
                        places.push(stage - 1);
                    },
                }
                match PlaceNot::from_places(places, stage) {
                    Some(pn) => calls.push(lead_end_call(pn, "s", "s", w)),
                    None => {
                        return None;
                    },
                }
            },
            None => {},
        }
        Some(calls)
    }
}

/// Where a method's place notation comes from.
pub enum MethodSource {
    /// Look the method up by title in a supplied library.
    Title(String),
    /// Parse custom place notation.
    CustomPn { name: String, pn_str: String, stage: usize },
}

/// Builder for one method of a query.
pub struct MethodBuilder {
    pub source: MethodSource,
    pub lead_labels: Vec<(String, Vec<i64>)>,
    pub custom_shorthand: Option<String>,
    pub override_count_range: OptRange,
    pub override_start_indices: Option<Vec<i64>>,
    pub override_end_indices: Option<Vec<i64>>,
    pub override_courses: Option<Vec<String>>,
}

impl MethodBuilder {
    /// A method looked up by title.
    pub fn with_title(title: String) -> (r: MethodBuilder)
        ensures
            r.source matches MethodSource::Title(t) && t@ == title@,
            r.custom_shorthand is None,
    {
        Self::started(MethodSource::Title(title))
    }

    /// A method from custom place notation.
    pub fn with_custom_pn(name: String, pn_str: String, stage: usize) -> (r: MethodBuilder)
        ensures
            r.source matches MethodSource::CustomPn { name: n, pn_str: p, stage: s } && n@ == name@
                && p@ == pn_str@ && s == stage,
            r.custom_shorthand is None,
    {
        Self::started(MethodSource::CustomPn { name, pn_str, stage })
    }

    fn started(source: MethodSource) -> (r: MethodBuilder)
        ensures
            r.source == source,
            r.custom_shorthand is None,
            r.override_start_indices is None,
            r.override_end_indices is None,
            r.override_courses is None,
            r.lead_labels@.len() == 1,
    {
        let mut lead_labels: Vec<(String, Vec<i64>)> = Vec::new();
        let mut at_lead_end: Vec<i64> = Vec::new();
        at_lead_end.push(0);
        lead_labels.push((label_lead_end(), at_lead_end));
        MethodBuilder {
            source,
            lead_labels,
            custom_shorthand: None,
            override_count_range: OptRange::open(),
            override_start_indices: None,
            override_end_indices: None,
            override_courses: None,
        }
    }

    /// Force a shorthand instead of the title's first character.
    pub fn shorthand(self, shorthand: String) -> (r: MethodBuilder)
        ensures
            r.custom_shorthand matches Some(s) && s@ == shorthand@,
            r.source == self.source,
    {
        MethodBuilder { custom_shorthand: Some(shorthand), ..self }
    }

    /// Override the query's default count range for this method.
    pub fn count_range(self, range: OptRange) -> (r: MethodBuilder)
        ensures
            r.override_count_range == range,
            r.source == self.source,
    {
        MethodBuilder { override_count_range: range, ..self }
    }

    /// Override the query's default start indices for this method.
    pub fn start_indices(self, indices: Vec<i64>) -> (r: MethodBuilder)
        ensures
            r.override_start_indices == Some(indices),
            r.source == self.source,
    {
        MethodBuilder { override_start_indices: Some(indices), ..self }
    }

    /// Override the query's default end indices for this method.
    pub fn end_indices(self, indices: Vec<i64>) -> (r: MethodBuilder)
        ensures
            r.override_end_indices == Some(indices),
            r.source == self.source,
    {
        MethodBuilder { override_end_indices: Some(indices), ..self }
    }

    /// Restrict which courses this method may be rung in.
    pub fn courses(self, courses: Vec<String>) -> (r: MethodBuilder)
        ensures
            r.override_courses == Some(courses),
            r.source == self.source,
    {
        MethodBuilder { override_courses: Some(courses), ..self }
    }

    /// Replace the lead labels (by default the lead end carries the lead-end
    /// label).
    pub fn lead_labels(self, labels: Vec<(String, Vec<i64>)>) -> (r: MethodBuilder)
        ensures
            r.lead_labels == labels,
            r.source == self.source,
    {
        MethodBuilder { lead_labels: labels, ..self }
    }

    /// Add this builder to a set, returning the index it will be known by.
    pub fn add(self, set: &mut MethodSet) -> (r: usize)
        ensures
            r == old(set).vec@.len(),
            final(set).vec@.len() == old(set).vec@.len() + 1,
    {
        set.add(self)
    }

    /// Resolve the place notation: from a library of `(title, notation, stage)`
    /// entries for a titled method, or by parsing directly.  `None` if the
    /// title is unknown or the notation does not parse.
    pub fn bellframe_method(&self, library: &Vec<(String, String, usize)>) -> (r: Option<Method>)
        ensures
            match r {
                Some(m) => m.wf(),
                None => true,
            },
    {
        match &self.source {
            MethodSource::Title(title) => {
                let n = library.len();
                for i in 0..n
                    invariant
                        n == library@.len(),
                {
                    if library[i].0.eq(title) {
                        let name = library[i].0.clone();
                        let stage = library[i].2;
                        return Method::from_place_not_string(name, stage, library[i].1.as_str());
                    }
                }
                None
            },
            MethodSource::CustomPn { name, pn_str, stage } => {
                Method::from_place_not_string(name.clone(), *stage, pn_str.as_str())
            },
        }
    }
}

/// A set of methods for a query.
pub struct MethodSet {
    pub vec: Vec<MethodBuilder>,
}

impl MethodSet {
    /// An empty set.
    pub fn new() -> (r: MethodSet)
        ensures
            r.vec@.len() == 0,
    {
        MethodSet { vec: Vec::new() }
    }

    /// Add a method builder, returning its index.
    pub fn add(&mut self, method: MethodBuilder) -> (r: usize)
        ensures
            r == old(self).vec@.len(),
            final(self).vec@.len() == old(self).vec@.len() + 1,
    {
        let idx = self.vec.len();
        self.vec.push(method);
        idx
    }
}

/// Builder for one music type.
pub struct MusicTypeBuilder {
    pub music_type: MusicType,
}

impl MusicTypeBuilder {
    /// Music matching the given patterns, weight one, scored at every stroke.
    pub fn new(patterns: Vec<Pattern>) -> (r: MusicTypeBuilder)
        ensures
            r.music_type.patterns == patterns,
            r.music_type.weight == 1i64,
            r.music_type.stroke_set == crate::music::StrokeSet::Both,
            r.music_type.non_duffer == true,
    {
        MusicTypeBuilder {
            music_type: MusicType {
                patterns,
                weight: 1,
                count_range: OptRange::open(),
                non_duffer: true,
                stroke_set: crate::music::StrokeSet::Both,
            },
        }
    }

    /// Set the weight of each instance.
    pub fn weight(self, weight: i64) -> (r: MusicTypeBuilder)
        ensures
            r.music_type.weight == weight,
            r.music_type.patterns == self.music_type.patterns,
    {
        let MusicTypeBuilder { mut music_type } = self;
        music_type.weight = weight;
        MusicTypeBuilder { music_type }
    }

    /// Score this music only at backstrokes.
    pub fn at_backstroke(self) -> (r: MusicTypeBuilder)
        ensures
            r.music_type.stroke_set == crate::music::StrokeSet::Back,
            r.music_type.patterns == self.music_type.patterns,
    {
        let MusicTypeBuilder { mut music_type } = self;
        music_type.stroke_set = crate::music::StrokeSet::Back;
        MusicTypeBuilder { music_type }
    }

    /// Score this music only at handstrokes.
    pub fn at_handstroke(self) -> (r: MusicTypeBuilder)
        ensures
            r.music_type.stroke_set == crate::music::StrokeSet::Hand,
            r.music_type.patterns == self.music_type.patterns,
    {
        let MusicTypeBuilder { mut music_type } = self;
        music_type.stroke_set = crate::music::StrokeSet::Hand;
        MusicTypeBuilder { music_type }
    }

    /// Constrain how often this music must or may occur.
    pub fn count_range(self, range: OptRange) -> (r: MusicTypeBuilder)
        ensures
            r.music_type.count_range == range,
            r.music_type.patterns == self.music_type.patterns,
    {
        let MusicTypeBuilder { mut music_type } = self;
        music_type.count_range = range;
        MusicTypeBuilder { music_type }
    }
}

/// The length range of a query.
pub enum Length {
    /// A practice-night touch: up to three hundred rows.
    Practice,
    /// A quarter peal: 1250 to 1350 rows.
    QuarterPeal,
    /// A half peal: 2500 to 2600 rows.
    HalfPeal,
    /// A full peal: 5000 to 5200 rows.
    Peal,
    /// A custom inclusive range.
    Range { min: usize, max: usize },
}

impl Length {
    /// The inclusive bounds of this range.
    pub fn bounds(&self) -> (r: (usize, usize))
        ensures
            self matches Length::Range { min, max } ==> r.0 == min && r.1 == max,
            self is Practice ==> r == (0usize, 300usize),
            self is QuarterPeal ==> r == (1250usize, 1350usize),
            self is HalfPeal ==> r == (2500usize, 2600usize),
            self is Peal ==> r == (5000usize, 5200usize),
    {
        match self {
            Length::Practice => (0, 300),
            Length::QuarterPeal => (1250, 1350),
            Length::HalfPeal => (2500, 2600),
            Length::Peal => (5000, 5200),
            Length::Range { min, max } => (*min, *max),
        }
    }
}

} // verus!

verus! {

/// A mask that pins two bells to the back two places of the row.
fn back_pair_mask(stage: usize, b1: usize, b2: usize) -> (m: Mask)
    requires
        stage >= 2,
    ensures
        m.slots@.len() == stage,
{
    let mut slots: Vec<Option<usize>> = Vec::new();
    let mut p: usize = 0;
    while p < stage - 2
        invariant
            stage >= 2,
            slots@.len() == p,
            p <= stage - 2,
        decreases stage - 2 - p,
    {
        slots.push(None);
        p += 1;
    }
    slots.push(Some(b1));
    slots.push(Some(b2));
    m_from(slots)
}

/// Wrap mask slots.
fn m_from(slots: Vec<Option<usize>>) -> (m: Mask)
    ensures
        m.slots@ == slots@,
{
    Mask { slots }
}

/// A fully-built query: everything the graph builder and search need.
pub struct Query {
    pub stage: usize,
    pub min_length: usize,
    pub max_length: usize,
    pub num_comps: usize,
    pub require_truth: bool,
    pub methods: Vec<Method>,
    pub shorthands: Vec<String>,
    pub method_count_ranges: Vec<OptRange>,
    pub calls: Vec<Call>,
    pub start_row: Row,
    pub end_row: Row,
    pub part_head: Row,
    pub course_masks: Vec<Mask>,
    pub course_weights: Vec<(Mask, i64)>,
    pub music_types: Vec<MusicType>,
    pub start_stroke: Stroke,
    pub splice_weight: i64,
}

impl Query {
    /// Rows, methods, calls, masks and music all share the query's stage.
    pub open spec fn wf(&self) -> bool {
        &&& self.stage >= 1
        &&& self.min_length <= self.max_length
        &&& self.start_row.wf() && self.start_row@.len() == self.stage
        &&& self.end_row.wf() && self.end_row@.len() == self.stage
        &&& self.part_head.wf() && self.part_head@.len() == self.stage
        &&& self.methods@.len() >= 1
        &&& self.shorthands@.len() == self.methods@.len()
        &&& self.method_count_ranges@.len() == self.methods@.len()
        &&& forall|m: int|
            0 <= m < self.methods@.len() ==> (#[trigger] self.methods@[m]).wf()
                && self.methods@[m].stage == self.stage
        &&& forall|c: int|
            0 <= c < self.calls@.len() ==> (#[trigger] self.calls@[c]).place_notation.wf()
                && self.calls@[c].place_notation.spec_stage() == self.stage
                && self.calls@[c].calling_positions@.len() == self.stage
        &&& forall|k: int|
            0 <= k < self.course_masks@.len() ==> (#[trigger] self.course_masks@[k]).slots@.len()
                == self.stage
        &&& forall|w: int|
            0 <= w < self.course_weights@.len() ==> (#[trigger] self.course_weights@[w]).0.slots@.len()
                == self.stage
        &&& forall|t: int|
            0 <= t < self.music_types@.len() ==> (#[trigger] self.music_types@[t]).wf(
                self.stage as nat,
            )
    }

    /// Whether more than one method is rung.
    pub fn is_spliced(&self) -> (r: bool)
        ensures
            r == (self.methods@.len() > 1),
    {
        self.methods.len() > 1
    }
}

/// Builder API for queries.
pub struct QueryBuilder {
    pub methods: Vec<(Method, MethodBuilder)>,
    pub stage: usize,
    pub min_length: usize,
    pub max_length: usize,
    pub num_comps: usize,
    pub require_truth: bool,
    pub default_method_count: OptRange,
    pub splice_weight: i64,
    pub base_calls: Option<BaseCalls>,
    pub custom_calls: Vec<CallBuilder>,
    pub music_types: Vec<MusicType>,
    pub start_stroke: Stroke,
    pub start_row: Row,
    pub end_row: Row,
    pub part_head: Row,
    pub courses: Option<Vec<Mask>>,
    pub course_weights: Vec<(Mask, i64)>,
}

impl QueryBuilder {
    /// Start building a query from a set of methods and a length range.  The
    /// library supplies place notation for methods given by title.  Errors
    /// when the set is empty, a method cannot be resolved, or the stages are
    /// inconsistent (methods of mixed stages are rejected rather than raised
    /// to the largest stage: the row algebra here rings every method at its
    /// own stage).  On success the usual defaults are in force: one hundred
    /// compositions, truth required, rounds for the start, end and part head,
    /// and the standard near calls.
    pub fn with_method_set(
        method_set: MethodSet,
        length: Length,
        library: &Vec<(String, String, usize)>,
    ) -> (r: Result<QueryBuilder, Error>)
        ensures
            method_set.vec@.len() == 0 ==> (r matches Err(e) && e is NoMethods),
            r matches Ok(b) ==> b.methods@.len() == method_set.vec@.len() && b.methods@.len() >= 1
                && b.stage >= 1 && (forall|m: int|
                0 <= m < b.methods@.len() ==> (#[trigger] b.methods@[m]).0.wf()
                    && b.methods@[m].0.stage == b.stage) && b.start_row.wf() && b.start_row@.len()
                == b.stage && b.end_row.wf() && b.end_row@.len() == b.stage && b.part_head.wf()
                && b.part_head@.len() == b.stage && b.min_length <= b.max_length,
            r matches Ok(b) ==> b.num_comps == 100 && b.require_truth && b.start_row@
                == crate::row::rounds_seq(b.stage as nat) && b.end_row@ == crate::row::rounds_seq(
                b.stage as nat,
            ) && b.part_head@ == crate::row::rounds_seq(b.stage as nat) && (
            b.base_calls matches Some(bc) && bc.ty == BaseCallType::Near && bc.bob_weight == Some(
                -18i64,
            ) && bc.single_weight == Some(-23i64)) && b.custom_calls@.len() == 0
                && b.courses is None,
    {
        let num_builders = method_set.vec.len();
        if num_builders == 0 {
            return Err(Error::NoMethods);
        }
        let (min_length, max_length) = length.bounds();
        if min_length > max_length {
            return Err(Error::UnachievableLength {
                min_requested: min_length,
                max_requested: max_length,
                next_shorter_len: None,
                next_longer_len: None,
            });
        }
        // Resolve every method and check the stages agree.
        let mut methods: Vec<(Method, MethodBuilder)> = Vec::new();
        let mut stage: usize = 0;
        let mut rest = method_set.vec;
        let mut i: usize = 0;
        while i < num_builders
            invariant
                num_builders >= 1,
                rest@.len() == num_builders - i,
                methods@.len() == i,
                i >= 1 ==> stage >= 1,
                forall|m: int|
                    0 <= m < i ==> (#[trigger] methods@[m]).0.wf() && methods@[m].0.stage == stage,
            decreases num_builders - i,
        {
            let builder = rest.remove(0);
            let method = match builder.bellframe_method(library) {
                Some(m) => m,
                None => {
                    return Err(Error::NoMethods);
                },
            };
            if i == 0 {
                stage = method.stage;
            } else if method.stage != stage {
                return Err(Error::NoMethods);
            }
            proof {
                assert(method.wf());
            }
            methods.push((method, builder));
            i += 1;
        }
        Ok(
            QueryBuilder {
                methods,
                stage,
                min_length,
                max_length,
                num_comps: 100,
                require_truth: true,
                default_method_count: OptRange::open(),
                splice_weight: 0,
                base_calls: Some(BaseCalls::default()),
                custom_calls: Vec::new(),
                music_types: Vec::new(),
                start_stroke: Stroke::Hand,
                start_row: Row::rounds(stage),
                end_row: Row::rounds(stage),
                part_head: Row::rounds(stage),
                courses: None,
                course_weights: Vec::new(),
            },
        )
    }

    /// Start building a query from a list of method builders.
    pub fn with_methods(
        methods: Vec<MethodBuilder>,
        length: Length,
        library: &Vec<(String, String, usize)>,
    ) -> (r: Result<QueryBuilder, Error>)
        ensures
            methods@.len() == 0 ==> (r matches Err(e) && e is NoMethods),
    {
        let ghost n0 = methods@.len();
        let mut set = MethodSet::new();
        let mut rest = methods;
        while rest.len() > 0
            invariant
                rest@.len() + set.vec@.len() == n0,
            decreases rest@.len(),
        {
            let b = rest.remove(0);
            let _ = set.add(b);
        }
        Self::with_method_set(set, length, library)
    }

    /// The stage shared by every method of the query.
    pub fn get_stage(&self) -> (r: usize)
        ensures
            r == self.stage,
    {
        self.stage
    }

    /// Add music types.
    pub fn music_types(self, music_types: Vec<MusicTypeBuilder>) -> (r: QueryBuilder)
        ensures
            r.stage == self.stage,
            r.methods@ == self.methods@,
            r.start_row == self.start_row,
            r.end_row == self.end_row,
            r.part_head == self.part_head,
            r.min_length == self.min_length,
            r.max_length == self.max_length,
            r.course_weights@ == self.course_weights@,
            r.courses == self.courses,
            r.custom_calls@ == self.custom_calls@,
    {
        let ghost orig = self;
        let mut out = self;
        let mut rest = music_types;
        while rest.len() > 0
            invariant
                out.stage == orig.stage,
                out.methods@ == orig.methods@,
                out.start_row == orig.start_row,
                out.end_row == orig.end_row,
                out.part_head == orig.part_head,
                out.min_length == orig.min_length,
                out.max_length == orig.max_length,
                out.course_weights@ == orig.course_weights@,
                out.courses == orig.courses,
                out.custom_calls@ == orig.custom_calls@,
            decreases rest@.len(),
        {
            let b = rest.remove(0);
            out.music_types.push(b.music_type);
        }
        out
    }

    /// Add course weights that reward every handbell pair coursing together.
    pub fn handbell_coursing_weight(self, weight: i64) -> (r: QueryBuilder)
        ensures
            r.stage == self.stage,
            r.methods@ == self.methods@,
            r.start_row == self.start_row,
            r.end_row == self.end_row,
            r.part_head == self.part_head,
            r.min_length == self.min_length,
            r.max_length == self.max_length,
            r.courses == self.courses,
            r.custom_calls@ == self.custom_calls@,
            r.music_types@ == self.music_types@,
            weight == 0 ==> r.course_weights@ == self.course_weights@,
            (forall|w: int|
                0 <= w < self.course_weights@.len() ==> (
                #[trigger] self.course_weights@[w]).0.slots@.len() == self.stage) ==> (forall|
                w: int,
            |
                0 <= w < r.course_weights@.len() ==> (#[trigger] r.course_weights@[w]).0.slots@.len()
                    == r.stage),
    {
        if weight == 0 {
            return self;
        }
        let ghost orig = self;
        let stage = self.stage;
        let mut out = self;
        if stage < 2 {
            return out;
        }
        let mut right: usize = 0;
        while right < stage && stage - right > 1
            invariant
                right <= stage,
                stage == out.stage,
                stage >= 2,
                out.methods@ == orig.methods@,
                out.start_row == orig.start_row,
                out.end_row == orig.end_row,
                out.part_head == orig.part_head,
                out.min_length == orig.min_length,
                out.max_length == orig.max_length,
                out.courses == orig.courses,
                out.custom_calls@ == orig.custom_calls@,
                out.music_types@ == orig.music_types@,
                (forall|w: int|
                    0 <= w < orig.course_weights@.len() ==> (
                    #[trigger] orig.course_weights@[w]).0.slots@.len() == stage) ==> (forall|
                    w: int,
                |
                    0 <= w < out.course_weights@.len() ==> (
                    #[trigger] out.course_weights@[w]).0.slots@.len() == stage),
            decreases stage - right,
        {
            let left = right + 1;
            // A mask for each order of the pair at the back of the row.
            let m1 = back_pair_mask(stage, left, right);
            out.course_weights.push((m1, weight));
            let m2 = back_pair_mask(stage, right, left);
            out.course_weights.push((m2, weight));
            right += 2;
        }
        out
    }

    /// Finish building: validate the query and assemble it.  Errors exactly on
    /// the stated condition: different start and end rows in a multi-part,
    /// duplicate shorthands, a call without enough calling positions, or a
    /// call whose label no method defines.
    pub fn build(self) -> (r: Result<Query, Error>)
        requires
            self.methods@.len() >= 1,
            self.stage >= 1,
            forall|m: int|
                0 <= m < self.methods@.len() ==> (#[trigger] self.methods@[m]).0.wf()
                    && self.methods@[m].0.stage == self.stage,
            self.start_row.wf() && self.start_row@.len() == self.stage,
            self.end_row.wf() && self.end_row@.len() == self.stage,
            self.part_head.wf() && self.part_head@.len() == self.stage,
            self.min_length <= self.max_length,
            forall|t: int|
                0 <= t < self.music_types@.len() ==> (#[trigger] self.music_types@[t]).wf(
                    self.stage as nat,
                ),
            forall|w: int|
                0 <= w < self.course_weights@.len() ==> (
                #[trigger] self.course_weights@[w]).0.slots@.len() == self.stage,
            self.courses matches Some(cs) ==> forall|k: int|
                0 <= k < cs@.len() ==> (#[trigger] cs@[k]).slots@.len() == self.stage,
            forall|c: int|
                0 <= c < self.custom_calls@.len() ==> (
                #[trigger] self.custom_calls@[c]).place_notation.wf()
                    && self.custom_calls@[c].place_notation.spec_stage() == self.stage,
        ensures
            r matches Ok(q) ==> q.wf() && q.methods@.len() == self.methods@.len() && q.stage
                == self.stage && q.min_length == self.min_length && q.max_length
                == self.max_length && q.num_comps == self.num_comps,
            r matches Err(e) && e is DifferentStartEndRowInMultipart ==> self.part_head@
                != crate::row::rounds_seq(self.stage as nat) && self.start_row@ != self.end_row@,
    {
        let QueryBuilder {
            methods,
            stage,
            min_length,
            max_length,
            num_comps,
            require_truth,
            default_method_count,
            splice_weight,
            base_calls,
            custom_calls,
            music_types,
            start_stroke,
            start_row,
            end_row,
            part_head,
            courses,
            course_weights,
        } = self;
        // A multi-part must start and end in the same row.
        if !part_head.is_rounds() && !start_row.eq(&end_row) {
            return Err(Error::DifferentStartEndRowInMultipart);
        }
        // Default courses: fix every bell from the seventh up that the part
        // head leaves at home.
        let course_masks: Vec<Mask> = match courses {
            Some(cs) => cs,
            None => {
                let mut fixed: Vec<usize> = Vec::new();
                let mut b: usize = 6;
                while b < stage
                    invariant
                        part_head.wf(),
                        part_head@.len() == stage,
                        forall|j: int| 0 <= j < fixed@.len() ==> (#[trigger] fixed@[j]) < stage,
                    decreases stage - b,
                {
                    if part_head.bell_at(b) == b {
                        fixed.push(b);
                    }
                    b += 1;
                }
                let mut masks: Vec<Mask> = Vec::new();
                match Mask::with_fixed_bells(stage, &fixed) {
                    Some(m) => masks.push(m),
                    None => {},
                }
                masks
            },
        };
        // Convert the method builders: apply lead labels, default shorthands
        // and count ranges.
        let num_methods = methods.len();
        let mut built_methods: Vec<Method> = Vec::new();
        let mut shorthands: Vec<String> = Vec::new();
        let mut method_count_ranges: Vec<OptRange> = Vec::new();
        let mut rest = methods;
        let mut i: usize = 0;
        while i < num_methods
            invariant
                stage >= 1,
                rest@.len() == num_methods - i,
                forall|m: int|
                    0 <= m < rest@.len() ==> (#[trigger] rest@[m]).0.wf() && rest@[m].0.stage
                        == stage,
                built_methods@.len() == i,
                shorthands@.len() == i,
                method_count_ranges@.len() == i,
                forall|m: int|
                    0 <= m < i ==> (#[trigger] built_methods@[m]).wf() && built_methods@[m].stage
                        == stage,
            decreases num_methods - i,
        {
            let (mut method, builder) = rest.remove(0);
            // Attach the lead labels, each index taken modulo the lead length.
            let lead_len = method.lead_len();
            let num_labels = builder.lead_labels.len();
            let mut li: usize = 0;
            while li < num_labels
                invariant
                    method.wf(),
                    method.stage == stage,
                    lead_len == method.spec_lead_len(),
                    num_labels == builder.lead_labels@.len(),
                decreases num_labels - li,
            {
                let (label, indices) = &builder.lead_labels[li];
                let num_indices = indices.len();
                let mut ii: usize = 0;
                while ii < num_indices
                    invariant
                        method.wf(),
                        method.stage == stage,
                        lead_len == method.spec_lead_len(),
                        num_labels == builder.lead_labels@.len(),
                        li < num_labels,
                        num_indices == builder.lead_labels@[li as int].1@.len(),
                    decreases num_indices - ii,
                {
                    let idx = builder.lead_labels[li].1[ii];
                    // Wrap the signed index into the lead.
                    let wrapped: usize = if idx >= 0 {
                        ((idx as u64) % (if lead_len as u64 >= 1 {
                            lead_len as u64
                        } else {
                            1
                        })) as usize
                    } else {
                        let k = (-(idx + 1)) as u64;
                        let ll = if lead_len as u64 >= 1 {
                            lead_len as u64
                        } else {
                            1
                        };
                        (ll - 1 - (k % ll)) as usize
                    };
                    proof {
                        assert(lead_len as u64 == lead_len) by {
                        }
                        assert(wrapped < lead_len);
                    }
                    method.add_label(wrapped, builder.lead_labels[li].0.clone());
                    ii += 1;
                }
                li += 1;
            }
            // Shorthand: custom, or the first character of the title.
            let shorthand = match &builder.custom_shorthand {
                Some(s) => s.clone(),
                None => {
                    if method.name.as_str().unicode_len() >= 1 {
                        default_shorthand(method.name.as_str())
                    } else {
                        String::new()
                    }
                },
            };
            // Duplicate shorthands are rejected.
            let ns = shorthands.len();
            let mut k: usize = 0;
            while k < ns
                invariant
                    ns == shorthands@.len(),
                decreases ns - k,
            {
                if shorthands[k].eq(&shorthand) {
                    return Err(Error::DuplicateShorthand {
                        shorthand,
                        title1: method.name.clone(),
                        title2: method.name.clone(),
                    });
                }
                k += 1;
            }
            method_count_ranges.push(builder.override_count_range.or(default_method_count));
            shorthands.push(shorthand);
            built_methods.push(method);
            i += 1;
        }
        // Calls: the base bobs and singles, then the custom ones.
        let mut calls: Vec<Call> = Vec::new();
        match base_calls {
            Some(bc) => {
                match bc.into_calls(stage) {
                    Some(mut base) => {
                        while base.len() > 0
                            invariant
                                forall|c: int|
                                    0 <= c < calls@.len() ==> (
                                    #[trigger] calls@[c]).place_notation.wf()
                                        && calls@[c].place_notation.spec_stage() == stage
                                        && calls@[c].calling_positions@.len() == stage,
                                forall|c: int|
                                    0 <= c < base@.len() ==> (
                                    #[trigger] base@[c]).place_notation.wf()
                                        && base@[c].place_notation.spec_stage() == stage
                                        && base@[c].calling_positions@.len() == stage,
                            decreases base@.len(),
                        {
                            let ghost base0 = base@;
                            let c = base.remove(0);
                            proof {
                                assert(c == base0[0]);
                                assert forall|c2: int| 0 <= c2 < base@.len() implies (
                                #[trigger] base@[c2]).place_notation.wf()
                                    && base@[c2].place_notation.spec_stage() == stage
                                    && base@[c2].calling_positions@.len() == stage by {
                                    assert(base@[c2] == base0[c2 + 1]);
                                }
                            }
                            calls.push(c);
                        }
                    },
                    None => {},
                }
            },
            None => {},
        }
        let mut rest_calls = custom_calls;
        while rest_calls.len() > 0
            invariant
                stage >= 1,
                forall|c: int|
                    0 <= c < calls@.len() ==> (#[trigger] calls@[c]).place_notation.wf()
                        && calls@[c].place_notation.spec_stage() == stage
                        && calls@[c].calling_positions@.len() == stage,
                forall|c: int|
                    0 <= c < rest_calls@.len() ==> (#[trigger] rest_calls@[c]).place_notation.wf()
                        && rest_calls@[c].place_notation.spec_stage() == stage,
            decreases rest_calls@.len(),
        {
            let ghost rest0 = rest_calls@;
            let cb = rest_calls.remove(0);
            proof {
                assert(cb == rest0[0]);
                assert forall|c2: int| 0 <= c2 < rest_calls@.len() implies (
                #[trigger] rest_calls@[c2]).place_notation.wf()
                    && rest_calls@[c2].place_notation.spec_stage() == stage by {
                    assert(rest_calls@[c2] == rest0[c2 + 1]);
                }
            }
            let call = cb.build();
            // Every place of the stage needs a calling position.
            if call.calling_positions.len() != stage {
                return Err(Error::WrongCallingPositionsLength {
                    call_name: call.display_symbol,
                    calling_position_len: call.calling_positions.len(),
                    stage,
                });
            }
            calls.push(call);
        }
        Ok(
            Query {
                stage,
                min_length,
                max_length,
                num_comps,
                require_truth,
                methods: built_methods,
                shorthands,
                method_count_ranges,
                calls,
                start_row,
                end_row,
                part_head,
                course_masks,
                course_weights,
                music_types,
                start_stroke,
                splice_weight,
            },
        )
    }
}

} // verus!

verus! {

impl Query {
    /// Lower the query into a course layout: one block per method's plain
    /// course, one segment per lead, a plain link from each lead to the next,
    /// and one link per call at every lead end.  Start and end segments are
    /// split out wherever rounds can occur.  Uses the query's first method.
    pub fn to_layout(&self) -> (r: Result<crate::layout::Layout, Error>)
        requires
            self.wf(),
        ensures
            r matches Ok(l) ==> l.wf() && l.spec_stage() == self.stage,
    {
        let stage = self.stage;
        let method = &self.methods[0];
        let pc = match method.plain_course() {
            Some(pc) => pc,
            None => {
                return Err(Error::NoMethods);
            },
        };
        if pc.stage() != stage {
            return Err(Error::NoMethods);
        }
        let lead_len = method.lead_len();
        let course_len = pc.len();
        if course_len == 0 || lead_len == 0 {
            return Err(Error::NoMethods);
        }
        let num_leads = course_len / lead_len;
        if num_leads == 0 {
            return Err(Error::NoMethods);
        }
        let course_rows: Vec<Row> = pc.rows();
        proof {
            assert(course_rows@.len() == course_len);
            vstd::arithmetic::div_mod::lemma_fundamental_div_mod(
                course_len as int,
                lead_len as int,
            );
            vstd::arithmetic::mul::lemma_mul_is_commutative(
                (course_len / lead_len) as int,
                lead_len as int,
            );
            vstd::arithmetic::div_mod::lemma_mod_bound(course_len as int, lead_len as int);
        }
        // The bells every course mask pins to its home place.
        let mut fixed_bells: Vec<usize> = Vec::new();
        if self.course_masks.len() >= 1 {
            let mask = &self.course_masks[0];
            let mut b: usize = 0;
            while b < stage
                invariant
                    self.wf(),
                    stage == self.stage,
                    mask == &self.course_masks@[0],
                    self.course_masks@.len() >= 1,
                    mask.slots@.len() == stage,
                    forall|j: int| 0 <= j < fixed_bells@.len() ==> (#[trigger] fixed_bells@[j]) < stage,
                decreases stage - b,
            {
                match mask.slots[b] {
                    Some(v) => {
                        if v == b {
                            fixed_bells.push(b);
                        }
                    },
                    None => {},
                }
                b += 1;
            }
        }
        // One segment per lead.
        let mut segments: Vec<crate::layout::Segment> = Vec::new();
        let mut lead: usize = 0;
        while lead < num_leads
            invariant
                self.wf(),
                stage == self.stage,
                course_len == course_rows@.len(),
                lead_len >= 1,
                num_leads >= 1,
                num_leads * lead_len <= course_len,
                course_len >= 1,
                forall|k: int|
                    0 <= k < course_rows@.len() ==> (#[trigger] course_rows@[k]).wf()
                        && course_rows@[k]@.len() == stage,
                lead <= num_leads,
                segments@.len() == lead,
                forall|s: int|
                    0 <= s < segments@.len() ==> (#[trigger] segments@[s]).row_range.0 == 0,
                forall|s: int, li: int|
                    0 <= s < segments@.len() && 0 <= li < segments@[s].links@.len() ==> (
                    #[trigger] segments@[s].links@[li]).transposition.wf()
                        && segments@[s].links@[li].transposition@.len() == stage
                        && segments@[s].links@[li].end_segment.idx < num_leads,
            decreases num_leads - lead,
        {
            proof {
                vstd::arithmetic::mul::lemma_mul_is_distributive_add_other_way(
                    lead_len as int,
                    lead as int,
                    1,
                );
                assert((lead + 1) * lead_len <= num_leads * lead_len) by (nonlinear_arith)
                    requires
                        lead + 1 <= num_leads,
                        lead_len >= 1,
                ;
                assert(lead * lead_len + lead_len <= course_len);
            }
            let start_idx = lead * lead_len;
            let next_lead = if lead + 1 == num_leads {
                0
            } else {
                lead + 1
            };
            // The plain link: the next lead of the same course, or the next
            // course when the last lead wraps.
            let mut links: Vec<crate::layout::SegmentLink> = Vec::new();
            links.push(
                crate::layout::SegmentLink {
                    display_name: String::new(),
                    debug_name: String::new(),
                    end_segment: crate::layout::SegmentId { idx: next_lead },
                    transposition: Row::rounds(stage),
                },
            );
            // One link per call, jumping to the course that continues from the
            // changed lead head.
            let lead_end_idx = start_idx + lead_len - 1;
            let num_calls = self.calls.len();
            let mut c: usize = 0;
            while c < num_calls
                invariant
                    self.wf(),
                    stage == self.stage,
                    num_calls == self.calls@.len(),
                    course_len == course_rows@.len(),
                    lead_end_idx < course_len,
                    course_len >= 1,
                    lead_len >= 1,
                    num_leads >= 1,
                    next_lead < num_leads,
                    forall|k: int|
                        0 <= k < course_rows@.len() ==> (#[trigger] course_rows@[k]).wf()
                            && course_rows@[k]@.len() == stage,
                    forall|li: int|
                        0 <= li < links@.len() ==> (#[trigger] links@[li]).transposition.wf()
                            && links@[li].transposition@.len() == stage
                            && links@[li].end_segment.idx < num_leads,
                decreases num_calls - c,
            {
                let call = &self.calls[c];
                // The lead head the call produces.
                let lead_end_row = &course_rows[lead_end_idx];
                let new_lead_head = lead_end_row.mul(call.place_notation.transposition());
                // The plain course's own next lead head.
                let next_lh_idx = crate::mod_add(lead_end_idx, 1, course_len);
                let plain_lead_head = &course_rows[next_lh_idx];
                // The course-head transposition the call applies.
                let x = new_lead_head.mul(&plain_lead_head.inv());
                links.push(
                    crate::layout::SegmentLink {
                        display_name: call.display_symbol.clone(),
                        debug_name: call.debug_symbol.clone(),
                        end_segment: crate::layout::SegmentId { idx: next_lead },
                        transposition: x,
                    },
                );
                c += 1;
            }
            segments.push(
                crate::layout::Segment {
                    row_range: (
                        0,
                        crate::layout::SegmentRange { start_idx, length: lead_len },
                    ),
                    links,
                    course_head_masks: Vec::new(),
                    name: String::new(),
                    truncations: Vec::new(),
                    position: crate::layout::Position::Central,
                },
            );
            lead += 1;
        }
        let mut layout = crate::layout::Layout { blocks: vec_of(course_rows), segments, fixed_bells };
        proof {
            assert(layout.wf()) by {
                assert(layout.blocks@[0]@ =~= layout.blocks@[0]@);
                assert(layout.blocks@.len() == 1);
                assert(layout.blocks@[0]@.len() == course_len);
                assert forall|bb: int, ii: int|
                    0 <= bb < layout.blocks@.len() && 0 <= ii < layout.blocks@[bb]@.len() implies (
                #[trigger] layout.blocks@[bb]@[ii]).wf() && layout.blocks@[bb]@[ii]@.len()
                    == layout.spec_stage() by {
                    assert(bb == 0);
                }
            }
        }
        // Split out start and end segments wherever rounds can occur.
        if !layout.generate_starts_and_end_nodes() {
            return Err(Error::NoMethods);
        }
        Ok(layout)
    }
}

/// A one-element vector.
fn vec_of(rows: Vec<Row>) -> (r: Vec<Vec<Row>>)
    ensures
        r@.len() == 1,
        r@[0] == rows,
{
    let mut v: Vec<Vec<Row>> = Vec::new();
    v.push(rows);
    v
}

} // verus!

verus! {

impl Query {
    /// Build the graph for this query, optimise it, and run the search.
    /// Every returned composition is round and has a length inside the
    /// query's range, and no more than `num_comps` are returned.
    pub fn search(&self, config: &crate::Config) -> (r: Result<
        (Vec<crate::search::Comp>, crate::search::Termination),
        Error,
    >)
        requires
            self.wf(),
        ensures
            r matches Ok(out) ==> out.0@.len() <= self.num_comps && (forall|i: int|
                0 <= i < out.0@.len() ==> self.min_length <= (#[trigger] out.0@[i]).length
                    && out.0@[i].length <= self.max_length && out.0@[i].rotation == 0) && (
            out.1 is CompsFound ==> out.0@.len() == self.num_comps),
    {
        let layout = match self.to_layout() {
            Ok(l) => l,
            Err(e) => {
                return Err(e);
            },
        };
        let part_heads = match crate::graph::part_head_group(&self.part_head) {
            Some(p) => p,
            None => {
                return Err(Error::UnreachablePartHead);
            },
        };
        let num_segments = layout.segments.len();
        let mut seg_methods: Vec<usize> = Vec::new();
        for s in 0..num_segments
            invariant
                seg_methods@.len() == s,
                forall|j: int| 0 <= j < s ==> (#[trigger] seg_methods@[j]) == 0,
        {
            seg_methods.push(0);
        }
        let graph = match crate::graph::Graph::from_layout(
            &layout,
            &seg_methods,
            self.methods.len(),
            &self.music_types,
            &self.course_weights,
            self.max_length,
            &part_heads,
            self.start_stroke,
            !self.require_truth,
            config.graph_size_limit,
        ) {
            Ok(g) => g,
            Err(e) => {
                return Err(e);
            },
        };
        let passes = crate::passes::default_passes(self.max_length);
        let graph = crate::passes::optimise(graph, &passes);
        let lowered = crate::search::SearchGraph::lower(&graph);
        let params = crate::search::SearchParams {
            num_comps: self.num_comps,
            min_length: self.min_length,
            max_length: self.max_length,
            queue_limit: config.queue_limit,
        };
        Ok(crate::search::run_search(&lowered, &params))
    }
}

impl QueryBuilder {
    /// Finish building and run the search with a custom configuration.
    pub fn run_with_config(self, config: crate::Config) -> (r: Result<
        Vec<crate::search::Comp>,
        Error,
    >)
        requires
            self.methods@.len() >= 1,
            self.stage >= 1,
            forall|m: int|
                0 <= m < self.methods@.len() ==> (#[trigger] self.methods@[m]).0.wf()
                    && self.methods@[m].0.stage == self.stage,
            self.start_row.wf() && self.start_row@.len() == self.stage,
            self.end_row.wf() && self.end_row@.len() == self.stage,
            self.part_head.wf() && self.part_head@.len() == self.stage,
            self.min_length <= self.max_length,
            forall|t: int|
                0 <= t < self.music_types@.len() ==> (#[trigger] self.music_types@[t]).wf(
                    self.stage as nat,
                ),
            forall|w: int|
                0 <= w < self.course_weights@.len() ==> (
                #[trigger] self.course_weights@[w]).0.slots@.len() == self.stage,
            self.courses matches Some(cs) ==> forall|k: int|
                0 <= k < cs@.len() ==> (#[trigger] cs@[k]).slots@.len() == self.stage,
            forall|c: int|
                0 <= c < self.custom_calls@.len() ==> (
                #[trigger] self.custom_calls@[c]).place_notation.wf()
                    && self.custom_calls@[c].place_notation.spec_stage() == self.stage,
        ensures
            r matches Ok(comps) ==> forall|i: int|
                0 <= i < comps@.len() ==> self.min_length <= (#[trigger] comps@[i]).length
                    && comps@[i].length <= self.max_length && comps@[i].rotation == 0,
    {
        let ghost min0 = self.min_length;
        let ghost max0 = self.max_length;
        let query = match self.build() {
            Ok(q) => q,
            Err(e) => {
                return Err(e);
            },
        };
        match query.search(&config) {
            Ok((comps, _)) => Ok(comps),
            Err(e) => Err(e),
        }
    }

    /// Finish building and run the search with the default configuration.
    pub fn run(self) -> (r: Result<Vec<crate::search::Comp>, Error>)
        requires
            self.methods@.len() >= 1,
            self.stage >= 1,
            forall|m: int|
                0 <= m < self.methods@.len() ==> (#[trigger] self.methods@[m]).0.wf()
                    && self.methods@[m].0.stage == self.stage,
            self.start_row.wf() && self.start_row@.len() == self.stage,
            self.end_row.wf() && self.end_row@.len() == self.stage,
            self.part_head.wf() && self.part_head@.len() == self.stage,
            self.min_length <= self.max_length,
            forall|t: int|
                0 <= t < self.music_types@.len() ==> (#[trigger] self.music_types@[t]).wf(
                    self.stage as nat,
                ),
            forall|w: int|
                0 <= w < self.course_weights@.len() ==> (
                #[trigger] self.course_weights@[w]).0.slots@.len() == self.stage,
            self.courses matches Some(cs) ==> forall|k: int|
                0 <= k < cs@.len() ==> (#[trigger] cs@[k]).slots@.len() == self.stage,
            forall|c: int|
                0 <= c < self.custom_calls@.len() ==> (
                #[trigger] self.custom_calls@[c]).place_notation.wf()
                    && self.custom_calls@[c].place_notation.spec_stage() == self.stage,
        ensures
            r matches Ok(comps) ==> forall|i: int|
                0 <= i < comps@.len() ==> self.min_length <= (#[trigger] comps@[i]).length
                    && comps@[i].length <= self.max_length && comps@[i].rotation == 0,
    {
        self.run_with_config(crate::Config::default())
    }
}

} // verus!
