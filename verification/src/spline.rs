//! The spline: the anchors of a scene in the order of their IDs, and the
//! trees that are grown along it, one between each anchor and the next.

use crate::anchors::Anchor;
use crate::grammar::RuleSet;
use crate::lattice::{Heading, Point};
use crate::turtle::{interpret, run, Drawing, Gait, TurtleError};
use vstd::prelude::*;
use vstd::seq_lib::{
    to_multiset_build, to_multiset_contains, to_multiset_insert, to_multiset_len,
    to_multiset_remove,
};

verus! {

/// The number of rewriting steps that the trees of a scene are derived with.
pub const GENERATIONS: usize = 3;

/// The number of steps of the lattice that lead from an anchor to the next
/// one: a step is this fraction of the distance between the two.
pub const STEPS_PER_SPAN: u32 = 20;

/// How far the turtle of a tree moves forward, in steps of the lattice.
pub const STEP_LENGTH: u32 = 1;

/// By how many eighths of a full turn the turtle of a tree turns.
pub const TURN_ANGLE: u8 = 1;

/// The stretch between two anchors that follow one another on the spline. A
/// tree grows from `from` and looks towards `to` at first.
#[derive(Clone, Copy, Debug, PartialEq, Eq, Structural)]
pub struct Span {
    pub from: Anchor,
    pub to: Anchor,
}

/// The ordered anchor sequence. It is rebuilt as a whole on every update.
#[derive(Debug, PartialEq, Eq)]
pub struct Spline {
    pub nodes: Vec<Anchor>,
}

/// What an update asks of the host.
#[derive(Debug, PartialEq, Eq)]
pub enum Growth {
    /// Leave the trees of the scene as they are.
    Unchanged,
    /// Remove every tree of the scene, then grow one along each of `spans`:
    /// a copy of `drawing`, with the turtle's start at `from` and `to` lying
    /// `STEPS_PER_SPAN` steps ahead.
    Regrown { spans: Vec<Span>, drawing: Drawing },
}

/// Whether the IDs never fall from one anchor to a later one.
pub open spec fn ascending(nodes: Seq<Anchor>) -> bool {
    forall|i: int, j: int| 0 <= i < j < nodes.len() ==> nodes[i].id <= nodes[j].id
}

/// Whether the IDs rise from each anchor to every later one.
pub open spec fn strictly_ascending(nodes: Seq<Anchor>) -> bool {
    forall|i: int, j: int| 0 <= i < j < nodes.len() ==> nodes[i].id < nodes[j].id
}

/// Whether no two anchors share an ID.
pub open spec fn distinct_ids(nodes: Seq<Anchor>) -> bool {
    forall|i: int, j: int| 0 <= i < j < nodes.len() ==> nodes[i].id != nodes[j].id
}

/// The anchors that carry `id`, in the order in which `nodes` holds them.
pub open spec fn with_id(nodes: Seq<Anchor>, id: u32) -> Seq<Anchor> {
    nodes.filter(|anchor: Anchor| anchor.id == id)
}

/// Whether `nodes` holds the anchors of `live` in the order of their IDs,
/// lowest first, and anchors with the same ID in the order in which `live`
/// holds them.
pub open spec fn sorted_by_id(live: Seq<Anchor>, nodes: Seq<Anchor>) -> bool {
    &&& ascending(nodes)
    &&& nodes.to_multiset() == live.to_multiset()
    &&& forall|id: u32| #[trigger] with_id(nodes, id) == with_id(live, id)
}

/// The spans of a spline: one from each anchor to the next, a path and not a
/// cycle. Two anchors at the same place have no direction between them, so
/// they get no span.
pub open spec fn spans_of(nodes: Seq<Anchor>) -> Seq<Span>
    decreases nodes.len(),
{
    if nodes.len() < 2 {
        Seq::empty()
    } else {
        let front = spans_of(nodes.drop_last());
        let from = nodes[nodes.len() - 2];
        let to = nodes.last();
        if from.position == to.position {
            front
        } else {
            front.push(Span { from, to })
        }
    }
}

/// Whether `outcome` is what growing trees along `nodes` with the turtle
/// program `sequence` gives: nothing to do with fewer than two anchors;
/// otherwise the spans of `nodes` and the drawing of `sequence`, walked from
/// the origin and looking ahead with `STEP_LENGTH` and `TURN_ANGLE`, or the
/// failure of that walk.
pub open spec fn grown(
    nodes: Seq<Anchor>,
    sequence: Seq<char>,
    outcome: Result<Growth, TurtleError>,
) -> bool {
    if nodes.len() < 2 {
        outcome matches Ok(Growth::Unchanged)
    } else {
        match run(
            sequence,
            Point::origin_spec(),
            Heading::Ahead,
            Gait { step_length: STEP_LENGTH, turn_angle: TURN_ANGLE },
        ) {
            Ok(trace) => outcome matches Ok(Growth::Regrown { spans, drawing }) && spans@
                == spans_of(nodes) && drawing.segments@ == trace.segments && drawing.leaves@
                == trace.leaves,
            Err(error) => outcome matches Err(reported) && reported == error,
        }
    }
}

/// Among anchors of which none carries `id`, none is found with it.
proof fn lemma_with_id_absent(nodes: Seq<Anchor>, id: u32)
    requires
        forall|k: int| 0 <= k < nodes.len() ==> nodes[k].id != id,
    ensures
        with_id(nodes, id) == Seq::<Anchor>::empty(),
    decreases nodes.len(),
{
    reveal(Seq::filter);
    if nodes.len() > 0 {
        lemma_with_id_absent(nodes.drop_last(), id);
    }
}

/// An anchor that is put in front of anchors with higher IDs only comes last
/// among the anchors of its own ID, and leaves the anchors of every other ID
/// as they were.
proof fn lemma_with_id_after_insert(nodes: Seq<Anchor>, slot: int, anchor: Anchor, id: u32)
    requires
        0 <= slot <= nodes.len(),
        forall|k: int| slot <= k < nodes.len() ==> nodes[k].id > anchor.id,
    ensures
        with_id(nodes.insert(slot, anchor), id) == (if id == anchor.id {
            with_id(nodes, id).push(anchor)
        } else {
            with_id(nodes, id)
        }),
{
    let select = |other: Anchor| other.id == id;
    let front = nodes.take(slot);
    let back = nodes.skip(slot);
    assert(nodes == front + back);
    assert(nodes.insert(slot, anchor) == (front + seq![anchor]) + back);
    Seq::filter_distributes_over_add(front, back, select);
    Seq::filter_distributes_over_add(front + seq![anchor], back, select);
    Seq::filter_distributes_over_add(front, seq![anchor], select);
    assert(seq![anchor].filter(select) == (if id == anchor.id {
        seq![anchor]
    } else {
        Seq::<Anchor>::empty()
    })) by {
        reveal_with_fuel(Seq::filter, 2);
        assert(seq![anchor].drop_last() == Seq::<Anchor>::empty());
    }
    if id == anchor.id {
        lemma_with_id_absent(back, id);
    }
}

/// The anchors that carry `id` among the first `count + 1` anchors: those
/// among the first `count`, and the next one if it carries `id`.
proof fn lemma_with_id_of_next(live: Seq<Anchor>, count: int, id: u32)
    requires
        0 <= count < live.len(),
    ensures
        with_id(live.take(count + 1), id) == (if id == live[count].id {
            with_id(live.take(count), id).push(live[count])
        } else {
            with_id(live.take(count), id)
        }),
{
    reveal(Seq::filter);
    assert(live.take(count + 1).drop_last() == live.take(count));
}

/// The anchors of `live` in the order of their IDs, lowest first. Anchors
/// with the same ID stay in the order in which `live` holds them.
pub fn sort_by_id(live: &Vec<Anchor>) -> (nodes: Vec<Anchor>)
    ensures
        sorted_by_id(live@, nodes@),
        nodes.len() == live.len(),
{
    let mut nodes: Vec<Anchor> = Vec::new();
    let mut i: usize = 0;
    assert(nodes@ == live@.take(0));
    while i < live.len()
        invariant
            i <= live.len(),
            nodes.len() == i,
            ascending(nodes@),
            nodes@.to_multiset() == live@.take(i as int).to_multiset(),
            forall|id: u32| #[trigger] with_id(nodes@, id) == with_id(live@.take(i as int), id),
        decreases live.len() - i,
    {
        let anchor = live[i];
        let mut slot: usize = nodes.len();
        while slot > 0 && nodes[slot - 1].id > anchor.id
            invariant
                slot <= nodes.len(),
                forall|k: int| slot <= k < nodes.len() ==> nodes[k].id > anchor.id,
            decreases slot,
        {
            slot -= 1;
        }
        proof {
            to_multiset_insert(nodes@, slot as int, anchor);
            to_multiset_build(live@.take(i as int), anchor);
            assert(live@.take(i + 1) == live@.take(i as int).push(anchor));
            assert forall|id: u32| #[trigger]
                with_id(nodes@.insert(slot as int, anchor), id) == with_id(
                    live@.take(i + 1),
                    id,
                ) by {
                lemma_with_id_after_insert(nodes@, slot as int, anchor, id);
                lemma_with_id_of_next(live@, i as int, id);
            }
        }
        nodes.insert(slot, anchor);
        i += 1;
    }
    assert(live@.take(i as int) == live@);
    nodes
}

/// The spans of a spline, in the order of the spline.
pub fn tree_spans(nodes: &Vec<Anchor>) -> (spans: Vec<Span>)
    ensures
        spans@ == spans_of(nodes@),
{
    let mut spans: Vec<Span> = Vec::new();
    if nodes.len() < 2 {
        return spans;
    }
    assert(nodes@.take(1).drop_last().len() == 0);
    let mut i: usize = 1;
    while i < nodes.len()
        invariant
            1 <= i <= nodes.len(),
            spans@ == spans_of(nodes@.take(i as int)),
        decreases nodes.len() - i,
    {
        let from = nodes[i - 1];
        let to = nodes[i];
        assert(nodes@.take(i + 1).drop_last() == nodes@.take(i as int));
        if !(from.position == to.position) {
            spans.push(Span { from, to });
        }
        i += 1;
    }
    assert(nodes@.take(i as int) == nodes@);
    spans
}

/// Replaces the spline by the live anchors in the order of their IDs and
/// says which trees are due along it.
///
/// With fewer than two anchors no tree can grow and the scene stays as it
/// is. Otherwise the axiom `start` is rewritten `generations` times under
/// `rules`, the turtle walks the result, and one tree is due for every span
/// of the new spline.
pub fn regrow(
    spline: &mut Spline,
    live: &Vec<Anchor>,
    rules: &RuleSet,
    start: Vec<char>,
    generations: usize,
) -> (outcome: Result<Growth, TurtleError>)
    ensures
        sorted_by_id(live@, final(spline).nodes@),
        grown(
            final(spline).nodes@,
            crate::grammar::derive_spec(rules@, start@, generations as nat),
            outcome,
        ),
{
    spline.nodes = sort_by_id(live);
    if spline.nodes.len() < 2 {
        return Ok(Growth::Unchanged);
    }
    let spans = tree_spans(&spline.nodes);
    let sequence = crate::grammar::derive(rules, start, generations);
    match interpret(&sequence, Point::origin(), Heading::Ahead, STEP_LENGTH, TURN_ANGLE) {
        Ok(drawing) => Ok(Growth::Regrown { spans, drawing }),
        Err(error) => Err(error),
    }
}

/// Among anchors with IDs of their own, at most one carries `id`.
proof fn lemma_with_id_at_most_once(nodes: Seq<Anchor>, id: u32)
    requires
        distinct_ids(nodes),
    ensures
        with_id(nodes, id).len() <= 1,
    decreases nodes.len(),
{
    reveal(Seq::filter);
    if nodes.len() > 0 {
        let front = nodes.drop_last();
        if nodes.last().id == id {
            assert forall|k: int| 0 <= k < front.len() implies front[k].id != id by {
                assert(front[k] == nodes[k]);
            }
            lemma_with_id_absent(front, id);
        } else {
            lemma_with_id_at_most_once(front, id);
        }
    }
}

/// Two anchors that carry `id` are both found with it.
proof fn lemma_with_id_twice(nodes: Seq<Anchor>, i: int, j: int, id: u32)
    requires
        0 <= i < j < nodes.len(),
        nodes[i].id == id,
        nodes[j].id == id,
    ensures
        with_id(nodes, id).len() >= 2,
    decreases nodes.len(),
{
    reveal(Seq::filter);
    let front = nodes.drop_last();
    if j == nodes.len() - 1 {
        assert(front[i] == nodes[i]);
        if with_id(front, id).len() == 0 {
            front.lemma_filter_contains(|anchor: Anchor| anchor.id == id, i);
        }
    } else {
        lemma_with_id_twice(front, i, j, id);
    }
}

/// Anchors that arrive in any order are processed in ascending order of
/// their IDs: where the live anchors have IDs of their own, the IDs rise
/// along the spline from each anchor to the next.
pub proof fn lemma_distinct_ids_strictly_ascending(live: Seq<Anchor>, nodes: Seq<Anchor>)
    requires
        sorted_by_id(live, nodes),
        distinct_ids(live),
    ensures
        strictly_ascending(nodes),
        distinct_ids(nodes),
{
    assert forall|i: int, j: int| 0 <= i < j < nodes.len() implies nodes[i].id != nodes[j].id by {
        if nodes[i].id == nodes[j].id {
            let id = nodes[i].id;
            lemma_with_id_twice(nodes, i, j, id);
            lemma_with_id_at_most_once(live, id);
            assert(with_id(nodes, id) == with_id(live, id));
        }
    }
}

/// A spline of anchors of which no two neighbours share a place has one span
/// for each anchor but the last: from that anchor to the next.
pub proof fn lemma_one_span_per_neighbours(nodes: Seq<Anchor>)
    requires
        forall|i: int|
            0 <= i < nodes.len() - 1 ==> (#[trigger] nodes[i]).position != nodes[i + 1].position,
    ensures
        nodes.len() < 2 ==> spans_of(nodes).len() == 0,
        nodes.len() >= 2 ==> spans_of(nodes).len() == nodes.len() - 1,
        forall|i: int|
            0 <= i < nodes.len() - 1 ==> #[trigger] spans_of(nodes)[i] == (Span {
                from: nodes[i],
                to: nodes[i + 1],
            }),
    decreases nodes.len(),
{
    if nodes.len() >= 2 {
        let front = nodes.drop_last();
        assert forall|i: int| 0 <= i < front.len() - 1 implies (#[trigger] front[i]).position
            != front[i + 1].position by {
            assert(front[i] == nodes[i]);
            assert(front[i + 1] == nodes[i + 1]);
        }
        lemma_one_span_per_neighbours(front);
        assert(nodes[nodes.len() - 2].position != nodes[nodes.len() - 2 + 1].position);
    }
}

/// Two ascending sequences of the same anchors, each anchor with an ID of
/// its own, are the same sequence.
proof fn lemma_ascending_is_unique(first: Seq<Anchor>, second: Seq<Anchor>)
    requires
        ascending(first),
        ascending(second),
        distinct_ids(first),
        first.to_multiset() == second.to_multiset(),
    ensures
        first == second,
    decreases first.len(),
{
    to_multiset_len(first);
    to_multiset_len(second);
    if first.len() == 0 {
        assert(first =~= second);
    } else {
        let last = first.len() - 1;
        let a = first[last];
        let b = second[last];
        to_multiset_contains(first, b);
        to_multiset_contains(second, b);
        to_multiset_contains(first, a);
        to_multiset_contains(second, a);
        assert(second.contains(b));
        assert(first.contains(a));
        let i = choose|i: int| 0 <= i < first.len() && first[i] == b;
        let j = choose|j: int| 0 <= j < second.len() && second[j] == a;
        assert(first[i].id <= first[last].id);
        assert(second[j].id <= second[last].id);
        assert(i == last);
        to_multiset_remove(first, last);
        to_multiset_remove(second, last);
        assert(first.remove(last) == first.drop_last());
        assert(second.remove(last) == second.drop_last());
        lemma_ascending_is_unique(first.drop_last(), second.drop_last());
        assert(first == first.drop_last().push(a));
        assert(second == second.drop_last().push(b));
    }
}

/// The order of a spline does not depend on the order in which its anchors
/// arrive: the same anchors, each with an ID of its own, give the same spline
/// whatever order the host finds them in.
pub proof fn lemma_arrival_order_is_irrelevant(
    live: Seq<Anchor>,
    nodes: Seq<Anchor>,
    shuffled: Seq<Anchor>,
    shuffled_nodes: Seq<Anchor>,
)
    requires
        distinct_ids(live),
        shuffled.to_multiset() == live.to_multiset(),
        sorted_by_id(live, nodes),
        sorted_by_id(shuffled, shuffled_nodes),
    ensures
        nodes == shuffled_nodes,
{
    lemma_distinct_ids_strictly_ascending(live, nodes);
    lemma_ascending_is_unique(nodes, shuffled_nodes);
}

/// Sorting by ID has one result: two sequences that both hold the anchors of
/// `live` sorted by ID are the same sequence, whether or not anchors share an
/// ID.
pub proof fn lemma_order_is_determined(live: Seq<Anchor>, first: Seq<Anchor>, second: Seq<Anchor>)
    requires
        sorted_by_id(live, first),
        sorted_by_id(live, second),
    ensures
        first == second,
    decreases first.len(),
{
    reveal(Seq::filter);
    to_multiset_len(first);
    to_multiset_len(second);
    to_multiset_len(live);
    if first.len() == 0 {
        assert(first =~= second);
    } else {
        let last = first.len() - 1;
        let a = first[last];
        let b = second[last];
        to_multiset_contains(first, b);
        to_multiset_contains(second, b);
        to_multiset_contains(first, a);
        to_multiset_contains(second, a);
        assert(second.contains(b));
        assert(first.contains(a));
        let i = choose|i: int| 0 <= i < first.len() && first[i] == b;
        let j = choose|j: int| 0 <= j < second.len() && second[j] == a;
        assert(first[i].id <= first[last].id);
        assert(second[j].id <= second[last].id);
        assert(a.id == b.id);
        assert(with_id(first, a.id) == with_id(second, a.id));
        assert(with_id(first, a.id).last() == a);
        assert(with_id(second, a.id).last() == b);
        let rest = first.drop_last();
        to_multiset_remove(first, last);
        to_multiset_remove(second, last);
        assert(first.remove(last) == first.drop_last());
        assert(second.remove(last) == second.drop_last());
        assert forall|id: u32| #[trigger]
            with_id(first.drop_last(), id) == with_id(second.drop_last(), id) by {
            assert(with_id(first, id) == with_id(second, id));
            if id == a.id {
                assert(with_id(first, id).drop_last() == with_id(first.drop_last(), id));
                assert(with_id(second, id).drop_last() == with_id(second.drop_last(), id));
            }
        }
        lemma_order_is_determined(rest, first.drop_last(), second.drop_last());
        assert(first == first.drop_last().push(a));
        assert(second == second.drop_last().push(b));
    }
}

} // verus!
