//! The scene: the counter of anchor IDs, the spline, and whether the spline
//! is due for an update. Commands and ticks of the host change it; what the
//! host has to draw comes back as values.

use crate::anchors::{spawn_topics, spawned_at, Anchor, NextId, Position};
use crate::grammar::{derive_spec, RuleSet};
use crate::spline::{grown, regrow, sorted_by_id, Growth, Spline};
use crate::turtle::TurtleError;
use vstd::prelude::*;

verus! {

/// A command from the user interface.
#[derive(Clone, Copy, Debug, PartialEq, Eq, Structural)]
pub enum Event {
    /// Add a topic to the scene.
    AddTopic,
}

/// Where a topic is put that the user interface asked for.
pub open spec fn placeholder_spec() -> Position {
    Position { x: -120 as i64, y: 89 }
}

/// Where the three topics are put that a scene starts with.
pub open spec fn initial_positions() -> Seq<Position> {
    seq![
        Position { x: -200 as i64, y: -50 as i64 },
        Position { x: 300, y: 50 },
        Position { x: 100, y: 250 },
    ]
}

/// Where a topic is put that the user interface asked for.
pub fn placeholder() -> (position: Position)
    ensures
        position == placeholder_spec(),
{
    Position { x: -120, y: 89 }
}

/// The state that the logic of a scene keeps between ticks. The anchors
/// themselves, with their places, live in the host.
#[derive(Debug, PartialEq, Eq)]
pub struct Scene {
    /// The ID that the next anchor gets.
    pub next_id: NextId,
    /// The anchors in the order of their IDs, as of the last update.
    pub spline: Spline,
    /// Whether an anchor was added or moved since the last update.
    pub update_due: bool,
}

impl Scene {
    /// A scene without anchors, with nothing to update.
    pub fn new() -> (scene: Scene)
        ensures
            scene.next_id.0 == 0,
            scene.spline.nodes@ == Seq::<Anchor>::empty(),
            !scene.update_due,
    {
        Scene { next_id: NextId(0), spline: Spline { nodes: Vec::new() }, update_due: false }
    }

    /// Creates the topics that a scene starts with: three anchors at fixed
    /// places. A spline update is due after it.
    pub fn setup(&mut self) -> (spawned: Vec<Anchor>)
        ensures
            spawned@ == spawned_at(initial_positions(), old(self).next_id.0),
            final(self).next_id.0 == old(self).next_id.0 + spawned.len(),
            final(self).update_due,
            final(self).spline.nodes@ == old(self).spline.nodes@,
    {
        let mut positions: Vec<Position> = Vec::new();
        positions.push(Position { x: -200, y: -50 });
        positions.push(Position { x: 300, y: 50 });
        positions.push(Position { x: 100, y: 250 });
        assert(positions@ == initial_positions());
        self.update_due = true;
        spawn_topics(&mut self.next_id, &positions)
    }

    /// Handles the commands that arrived from the user interface: each
    /// `AddTopic` creates an anchor at the placeholder position. A spline
    /// update is due once an anchor was created.
    pub fn on_new_topic_msg(&mut self, events: &Vec<Event>) -> (spawned: Vec<Anchor>)
        ensures
            spawned@ == spawned_at(
                Seq::new(events.len() as nat, |i: int| placeholder_spec()),
                old(self).next_id.0,
            ),
            final(self).next_id.0 == old(self).next_id.0 + spawned.len(),
            final(self).update_due == (old(self).update_due || spawned.len() > 0),
            final(self).spline.nodes@ == old(self).spline.nodes@,
    {
        let mut positions: Vec<Position> = Vec::new();
        let mut i: usize = 0;
        while i < events.len()
            invariant
                i <= events.len(),
                positions@ == Seq::new(i as nat, |k: int| placeholder_spec()),
            decreases events.len() - i,
        {
            match events[i] {
                Event::AddTopic => {
                    positions.push(placeholder());
                },
            }
            i += 1;
        }
        let spawned = spawn_topics(&mut self.next_id, &positions);
        if spawned.len() > 0 {
            self.update_due = true;
        }
        spawned
    }

    /// Notes that an anchor has moved: a spline update is due.
    pub fn on_anchor_moved(&mut self)
        ensures
            final(self).update_due,
            final(self).next_id == old(self).next_id,
            final(self).spline.nodes@ == old(self).spline.nodes@,
    {
        self.update_due = true;
    }

    /// The update of one tick. `live` holds the anchors of the scene as the
    /// host finds them, in any order.
    ///
    /// Where no update is due nothing happens. Where one is, the spline is
    /// replaced by the live anchors in the order of their IDs. With fewer
    /// than two anchors no tree can grow and the trees of the scene stay as
    /// they are. Otherwise the axiom `start` is rewritten `generations`
    /// times under `rules`, the turtle walks the result, and one tree is due
    /// for every span of the new spline. After the call no update is due.
    pub fn update_spline(
        &mut self,
        live: &Vec<Anchor>,
        rules: &RuleSet,
        start: Vec<char>,
        generations: usize,
    ) -> (outcome: Result<Growth, TurtleError>)
        ensures
            !final(self).update_due,
            final(self).next_id == old(self).next_id,
            !old(self).update_due ==> final(self).spline.nodes@ == old(self).spline.nodes@
                && outcome matches Ok(Growth::Unchanged),
            old(self).update_due ==> sorted_by_id(live@, final(self).spline.nodes@),
            old(self).update_due ==> grown(
                final(self).spline.nodes@,
                derive_spec(rules@, start@, generations as nat),
                outcome,
            ),
    {
        if !self.update_due {
            return Ok(Growth::Unchanged);
        }
        self.update_due = false;
        regrow(&mut self.spline, live, rules, start, generations)
    }
}

} // verus!
