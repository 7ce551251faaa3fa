//! End-to-end tests: row algebra, methods, graphs, passes and the search.

use monument::block::Block;
use monument::composition::{Composition, PathElem};
use monument::graph::{part_head_group, Graph};
use monument::layout::{Layout, Position, Segment, SegmentId, SegmentLink, SegmentRange};
use monument::method::Method;
use monument::music::{Mask, Stroke, StrokeSet};
use monument::num_leads_covered;
use monument::passes::{default_passes, optimise, run_passes, Size};
use monument::pn::PlaceNot;
use monument::row::Row;
use monument::search::{run_search, QueryUpdate, Search, SearchGraph, SearchParams, Termination};

fn row(s: &str) -> Row {
    Row::parse(&s.chars().collect()).expect("valid row")
}

fn pb_minimus() -> Method {
    Method::from_place_not_string("Plain Bob Minimus".to_string(), 4, "x14x14,12")
        .expect("valid notation")
}

#[test]
fn composition_num_leads_covered() {
    assert_eq!(num_leads_covered(32, 0, 32), 1);
    assert_eq!(num_leads_covered(32, 2, 32), 2);
    assert_eq!(num_leads_covered(32, 2, 30), 1);
    assert_eq!(num_leads_covered(32, 0, 2), 1);
    assert_eq!(num_leads_covered(32, 16, 24), 2);
}

#[test]
fn lib_num_leads_covered() {
    assert_eq!(num_leads_covered(32, 0, 32), 1);
    assert_eq!(num_leads_covered(32, 2, 32), 2);
    assert_eq!(num_leads_covered(32, 2, 30), 1);
    assert_eq!(num_leads_covered(32, 0, 2), 1);
    assert_eq!(num_leads_covered(32, 16, 24), 2);
}

fn positions(pn: &str, stage: usize) -> Vec<String> {
    let pn = PlaceNot::parse(pn, stage).expect("valid place notation");
    monument::query::default_calling_positions(&pn)
}

fn char_vec(string: &str) -> Vec<String> {
    string.chars().map(|c| c.to_string()).collect()
}

#[test]
fn default_calling_positions() {
    assert_eq!(positions("145", 5), char_vec("LIBFH"));
    assert_eq!(positions("125", 5), char_vec("LBTFH"));
    assert_eq!(positions("1", 5), char_vec("LIBFH"));

    assert_eq!(positions("14", 6), char_vec("LIBFWH"));
    assert_eq!(positions("1234", 6), char_vec("LBTFWH"));
    assert_eq!(positions("1456", 6), char_vec("LIBFWH"));

    assert_eq!(positions("147", 7), char_vec("LIBFWMH"));
    assert_eq!(positions("12347", 7), char_vec("LBTFWMH"));

    assert_eq!(positions("14", 8), char_vec("LIBFVMWH"));
    assert_eq!(positions("1234", 8), char_vec("LBTFVMWH"));
    assert_eq!(positions("16", 8), char_vec("LIBFVMWH"));
    assert_eq!(positions("1678", 8), char_vec("LIBFVMWH"));
    assert_eq!(positions("1256", 8), char_vec("LBTFVMWH"));
    assert_eq!(positions("123456", 8), char_vec("LBTFVMWH"));

    assert_eq!(positions("14", 10), char_vec("LIBFVXSMWH"));
    assert_eq!(positions("16", 10), char_vec("LIBFVXSMWH"));
    assert_eq!(positions("18", 10), char_vec("LIBFVXSMWH"));
    assert_eq!(positions("1890", 10), char_vec("LIBFVXSMWH"));

    assert_eq!(positions("14", 12), char_vec("LIBFVXSENMWH"));
    assert_eq!(positions("1234", 12), char_vec("LBTFVXSENMWH"));
}

#[test]
fn row_multiply_and_invert() {
    let a = row("2143");
    let b = row("3412");
    let ab = a.mul(&b);
    assert_eq!(ab.bells(), &vec![4 - 1, 3 - 1, 2 - 1, 1 - 1]);
    let inv = a.inv();
    let id = a.mul(&inv);
    assert!(id.is_rounds());
    assert!(Row::rounds(6).is_rounds());
}

#[test]
fn row_parse_rejects_invalid() {
    assert!(Row::parse(&"1123".chars().collect::<Vec<char>>()).is_none());
    assert!(Row::parse(&"125".chars().collect::<Vec<char>>()).is_none());
    assert!(Row::parse(&"21?3".chars().collect::<Vec<char>>()).is_none());
}

#[test]
fn place_notation_transpositions() {
    let cross = PlaceNot::parse("", 4).expect("cross is valid on even stages");
    assert_eq!(cross.transposition().bells(), &vec![1, 0, 3, 2]);
    let fourths = PlaceNot::parse("14", 4).expect("14 is valid");
    assert_eq!(fourths.transposition().bells(), &vec![0, 2, 1, 3]);
    assert!(PlaceNot::parse("12", 5).is_none());
    assert!(PlaceNot::parse("21", 4).is_none());
}

#[test]
fn plain_course_of_plain_bob() {
    let method = pb_minimus();
    assert_eq!(method.lead_len(), 8);
    let pc = method.plain_course().expect("plain course closes");
    assert_eq!(pc.len(), 24);
    assert!(pc.leftover_row().is_rounds());
    assert_eq!(pc.rows[0].bells(), &vec![0, 1, 2, 3]);
    assert_eq!(pc.rows[1].bells(), &vec![1, 0, 3, 2]);
    // The course never repeats a row before its left-over row.
    assert!(pc.is_true());
}

#[test]
fn block_extend_and_split() {
    let method = pb_minimus();
    let pc = method.plain_course().expect("plain course closes");
    let mut block: Block<usize> = Block::with_leftover_row(Row::rounds(4));
    block.extend_range(&pc, 0, 8);
    assert_eq!(block.len(), 8);
    assert_eq!(block.rows[0].bells(), &vec![0, 1, 2, 3]);
    let (first, second) = block.split(4).expect("split in range");
    assert_eq!(first.len(), 4);
    assert_eq!(second.len(), 4);
    assert_eq!(first.leftover_row().bells(), second.rows[0].bells());
}

/// A layout with a single whole-course start segment that links into a
/// zero-length end segment.
fn tiny_layout() -> Layout {
    let method = pb_minimus();
    let pc = method.plain_course().expect("plain course closes");
    let course_rows: Vec<Row> = pc.rows();
    let start_seg = Segment {
        row_range: (0, SegmentRange { start_idx: 0, length: 24 }),
        links: vec![SegmentLink {
            display_name: "p".to_string(),
            debug_name: "p".to_string(),
            end_segment: SegmentId { idx: 1 },
            transposition: Row::rounds(4),
        }],
        course_head_masks: vec![Mask::full_row(&Row::rounds(4))],
        name: String::new(),
        truncations: vec![],
        position: Position::Start,
    };
    let end_seg = Segment {
        row_range: (0, SegmentRange { start_idx: 0, length: 0 }),
        links: vec![],
        course_head_masks: vec![Mask::full_row(&Row::rounds(4))],
        name: String::new(),
        truncations: vec![],
        position: Position::End,
    };
    Layout {
        blocks: vec![course_rows],
        segments: vec![start_seg, end_seg],
        fixed_bells: vec![0],
    }
}

fn tiny_graph(max_length: usize) -> Graph {
    let layout = tiny_layout();
    let part_heads = part_head_group(&Row::rounds(4)).expect("rounds generates one part");
    Graph::from_layout(
        &layout,
        &vec![0, 0],
        1,
        &vec![],
        &vec![],
        max_length,
        &part_heads,
        Stroke::Hand,
        false,
        10000,
    )
    .expect("graph builds")
}

#[test]
fn graph_has_mirrored_links() {
    let g = tiny_graph(24);
    assert!(g.chunks.len() >= 2);
    // Every successor link to a present chunk is mirrored by a predecessor
    // entry with the same index.
    for (id, chunk) in &g.chunks {
        for link in &chunk.successors {
            if let Some(target) = g.get_chunk(&link.id) {
                let mirrored = target.predecessors.iter().any(|p| {
                    p.id.same(id) && p.source_idx == link.source_idx
                });
                assert!(mirrored, "forward link has no matching predecessor");
            }
        }
    }
}

#[test]
fn graph_chunks_are_false_against_themselves() {
    let g = tiny_graph(24);
    for (id, chunk) in &g.chunks {
        assert!(
            chunk.false_chunks.iter().any(|f| f.same(id)),
            "chunk's own id must be in its falseness list"
        );
    }
}

#[test]
fn self_false_chunk_is_never_added() {
    // A segment twice as long as the course repeats every row, so its chunk
    // must not appear in the graph.
    let mut layout = tiny_layout();
    layout.segments[0].row_range.1.length = 48;
    let part_heads = part_head_group(&Row::rounds(4)).expect("one part");
    let g = Graph::from_layout(
        &layout,
        &vec![0, 0],
        1,
        &vec![],
        &vec![],
        100,
        &part_heads,
        Stroke::Hand,
        false,
        10000,
    )
    .expect("graph builds");
    for (id, _) in &g.chunks {
        assert!(id.seg != 0, "the repeating segment must have been dropped");
    }
}

#[test]
fn optimise_reaches_a_fixed_point() {
    let g = tiny_graph(24);
    let passes = default_passes(24);
    let once = optimise(g, &passes);
    let size_once = Size::of_graph(&once);
    let twice = optimise(once, &passes);
    let size_twice = Size::of_graph(&twice);
    assert_eq!(size_once, size_twice);
}

#[test]
fn distance_pass_bounds_composition_length() {
    let g = tiny_graph(24);
    let passes = default_passes(24);
    let g = run_passes(g, &passes);
    for (_, chunk) in &g.chunks {
        assert!(
            chunk.lb_distance_from_rounds + chunk.total_length + chunk.lb_distance_to_rounds
                <= 24
        );
    }
}

#[test]
fn search_finds_the_whole_course() {
    let g = tiny_graph(24);
    let lowered = SearchGraph::lower(&g);
    let params = SearchParams { num_comps: 5, min_length: 24, max_length: 24, queue_limit: 1000 };
    let (comps, termination) = run_search(&lowered, &params);
    assert_eq!(comps.len(), 1);
    assert_eq!(comps[0].length, 24);
    assert_eq!(comps[0].rotation, 0);
    assert_eq!(termination, Termination::FrontierEmpty);
}

#[test]
fn length_bounds_are_inclusive() {
    let g = tiny_graph(24);
    let lowered = SearchGraph::lower(&g);
    // One row short of the course's length rejects it.
    let short = SearchParams { num_comps: 5, min_length: 0, max_length: 23, queue_limit: 1000 };
    let g2 = tiny_graph(24);
    let lowered_short = SearchGraph::lower(&g2);
    let (comps, _) = run_search(&lowered_short, &short);
    assert_eq!(comps.len(), 0);
    // One row above the minimum bound also rejects it.
    let long = SearchParams { num_comps: 5, min_length: 25, max_length: 30, queue_limit: 1000 };
    let (comps, _) = run_search(&lowered, &long);
    assert_eq!(comps.len(), 0);
}

#[test]
fn search_stops_at_num_comps() {
    let g = tiny_graph(24);
    let lowered = SearchGraph::lower(&g);
    let params = SearchParams { num_comps: 1, min_length: 24, max_length: 24, queue_limit: 1000 };
    let (comps, termination) = run_search(&lowered, &params);
    assert_eq!(comps.len(), 1);
    assert_eq!(termination, Termination::CompsFound);
}

#[test]
fn abort_stops_the_search() {
    let g = tiny_graph(24);
    let lowered = SearchGraph::lower(&g);
    let params = SearchParams { num_comps: 5, min_length: 24, max_length: 24, queue_limit: 1000 };
    let mut search = Search::new(lowered, params);
    search.signal_abort();
    let mut saw_aborting = false;
    for _ in 0..10 {
        match search.step() {
            QueryUpdate::Comp(_) => panic!("no composition may be emitted after an abort"),
            QueryUpdate::Aborting => saw_aborting = true,
            QueryUpdate::Done(_) => break,
            QueryUpdate::Progress(_) => {}
        }
    }
    assert!(saw_aborting);
}

#[test]
fn reconstruction_round_trips() {
    let method = pb_minimus();
    let comp = Composition {
        path: vec![PathElem {
            start_row: Row::rounds(4),
            method: 0,
            start_sub_lead_idx: 0,
            length: 24,
            call: None,
        }],
        part_head: 0,
        length: 24,
        method_counts: vec![24],
        music_counts: vec![],
        total_score: 0,
    };
    let block = comp
        .rows(&vec![method], &vec![], &Row::rounds(4), &Row::rounds(4), 1)
        .expect("the path stitches");
    assert_eq!(block.len(), 24);
    assert_eq!(block.rows[0].bells(), &vec![0, 1, 2, 3]);
    assert!(block.leftover_row().is_rounds());
    assert!(block.is_true());
}

#[test]
fn part_head_group_of_a_two_part() {
    // Swapping the back two bells generates a two-part group.
    let part_head = row("1243");
    let phs = part_head_group(&part_head).expect("group closes");
    assert_eq!(phs.len(), 2);
    assert!(phs[0].is_rounds());
    assert_eq!(phs[1].bells(), part_head.bells());
}

#[test]
fn decimal_rendering() {
    assert_eq!(monument::usize_to_string(0), "0");
    assert_eq!(monument::usize_to_string(7), "7");
    assert_eq!(monument::usize_to_string(5184), "5184");
}

#[test]
fn range_formatting() {
    assert_eq!(monument::composition::write_range("count", Some(5), Some(10)), "5 <= count <= 10");
    assert_eq!(monument::composition::write_range("count", Some(5), None), "5 <= count");
    assert_eq!(monument::composition::write_range("count", None, Some(10)), "count <= 10");
    assert_eq!(monument::composition::write_range("count", None, None), "count");
}

#[test]
fn query_pipeline_finds_touches() {
    // A one-method query over a whole course with the standard near calls:
    // the search must find at least the plain course, and every composition
    // must be round with exactly the requested length.
    let builder = monument::query::MethodBuilder::with_custom_pn(
        "Demo".to_string(),
        "x14x14,12".to_string(),
        4,
    );
    let qb = monument::query::QueryBuilder::with_methods(
        vec![builder],
        monument::query::Length::Range { min: 24, max: 24 },
        &vec![],
    )
    .expect("builder is valid");
    let qb = qb.handbell_coursing_weight(0);
    let comps = qb.run().expect("search runs");
    assert!(!comps.is_empty());
    for c in &comps {
        assert_eq!(c.length, 24);
        assert_eq!(c.rotation, 0);
    }
}

#[test]
fn empty_method_set_is_rejected() {
    let r = monument::query::QueryBuilder::with_methods(
        vec![],
        monument::query::Length::Practice,
        &vec![],
    );
    assert!(matches!(r, Err(monument::Error::NoMethods)));
}

#[test]
fn stroke_sets() {
    assert!(StrokeSet::Both.contains(Stroke::Hand));
    assert!(StrokeSet::Both.contains(Stroke::Back));
    assert!(StrokeSet::Hand.contains(Stroke::Hand));
    assert!(!StrokeSet::Hand.contains(Stroke::Back));
    assert!(!StrokeSet::Back.contains(Stroke::Hand));
    assert!(StrokeSet::Back.contains(Stroke::Back));
    assert_eq!(Stroke::Hand.offset(3), Stroke::Back);
    assert_eq!(Stroke::Hand.offset(4), Stroke::Hand);
}

#[test]
fn path_elem_accessors() {
    let method = pb_minimus();
    let elem = PathElem {
        start_row: Row::rounds(4),
        method: 0,
        start_sub_lead_idx: 2,
        length: 14,
        call: None,
    };
    assert!(elem.ends_with_plain());
    assert_eq!(elem.end_sub_lead_idx(&vec![method]), 0);
}

#[test]
fn two_part_graph_keeps_its_invariants() {
    // The same course under a two-part head: every chunk's total length
    // covers both parts, its own id stays in its falseness list, and the
    // mirrored-link invariant still holds.
    let layout = tiny_layout();
    let part_heads = part_head_group(&row("1243")).expect("two-part group closes");
    assert_eq!(part_heads.len(), 2);
    let g = Graph::from_layout(
        &layout,
        &vec![0, 0],
        1,
        &vec![],
        &vec![],
        100,
        &part_heads,
        Stroke::Hand,
        false,
        10000,
    )
    .expect("graph builds");
    for (id, chunk) in &g.chunks {
        assert_eq!(chunk.total_length, chunk.per_part_length * 2);
        assert!(chunk.false_chunks.iter().any(|f| f.same(id)));
    }
}
