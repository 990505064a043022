//! Anchors: the topics of a scene, each with an ID of its own.

use vstd::prelude::*;

verus! {

/// A place in the scene, in whole scene units.
#[derive(Clone, Copy, Debug, PartialEq, Eq, Structural)]
pub struct Position {
    pub x: i64,
    pub y: i64,
}

/// A topic of the scene: an endpoint for the trees that are grown.
#[derive(Clone, Copy, Debug, PartialEq, Eq, Structural)]
pub struct Anchor {
    pub id: u32,
    pub position: Position,
}

/// The ID that the next anchor gets. IDs are handed out in ascending order,
/// each once; the highest value of the counter is never handed out.
#[derive(Clone, Copy, Debug, PartialEq, Eq, Structural)]
pub struct NextId(pub u32);

/// The number of IDs that are left when `next` is the first free one.
pub open spec fn ids_left(next: u32) -> nat {
    (u32::MAX - next) as nat
}

/// The anchors that are created at `positions`, in this order, when `next`
/// is the first free ID: the IDs count up from `next`, and the positions
/// for which no ID is left get no anchor.
pub open spec fn spawned_at(positions: Seq<Position>, next: u32) -> Seq<Anchor> {
    let count = if positions.len() <= ids_left(next) {
        positions.len()
    } else {
        ids_left(next)
    };
    Seq::new(count, |i: int| Anchor { id: (next + i) as u32, position: positions[i] })
}

/// Creates the anchor of a new topic at `position`, under the next free ID.
/// `None`, with the counter unchanged, once no ID is left.
pub fn spawn_next_topic(next_id: &mut NextId, position: Position) -> (spawned: Option<Anchor>)
    ensures
        spawned == (if ids_left(old(next_id).0) > 0 {
            Some(Anchor { id: old(next_id).0, position })
        } else {
            None
        }),
        final(next_id).0 == (if ids_left(old(next_id).0) > 0 {
            old(next_id).0 + 1
        } else {
            old(next_id).0 as int
        }),
{
    if next_id.0 < u32::MAX {
        let id = next_id.0;
        next_id.0 = id + 1;
        Some(Anchor { id, position })
    } else {
        None
    }
}

/// Creates one anchor for each of `positions`, in this order, as long as
/// there are IDs left.
pub fn spawn_topics(next_id: &mut NextId, positions: &Vec<Position>) -> (spawned: Vec<Anchor>)
    ensures
        spawned@ == spawned_at(positions@, old(next_id).0),
        final(next_id).0 == old(next_id).0 + spawned.len(),
{
    let mut spawned: Vec<Anchor> = Vec::new();
    let mut i: usize = 0;
    while i < positions.len()
        invariant
            i <= positions.len(),
            spawned@ == spawned_at(positions@.take(i as int), old(next_id).0),
            next_id.0 == old(next_id).0 + spawned.len(),
        decreases positions.len() - i,
    {
        match spawn_next_topic(next_id, positions[i]) {
            Some(anchor) => {
                spawned.push(anchor);
            },
            None => {},
        }
        i += 1;
        assert(spawned@ =~= spawned_at(positions@.take(i as int), old(next_id).0));
    }
    assert(positions@.take(i as int) == positions@);
    spawned
}

} // verus!
