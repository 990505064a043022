use lbranches::anchors::{Anchor, NextId, Position};
use lbranches::grammar::{branch_rules, branch_start, RuleSet};
use lbranches::lattice::{Heading, Point};
use lbranches::scene::{placeholder, Event, Scene};
use lbranches::spline::{Growth, Span, GENERATIONS, STEP_LENGTH, TURN_ANGLE};
use lbranches::turtle::{interpret, TurtleError};

fn topic(id: u32, x: i64, y: i64) -> Anchor {
    Anchor { id, position: Position { x, y } }
}

fn tick(scene: &mut Scene, live: &Vec<Anchor>) -> Result<Growth, TurtleError> {
    scene.update_spline(live, &branch_rules(), branch_start(), GENERATIONS)
}

fn pairs(growth: Growth) -> Vec<(u32, u32)> {
    match growth {
        Growth::Regrown { spans, .. } => {
            spans.iter().map(|span| (span.from.id, span.to.id)).collect()
        }
        Growth::Unchanged => panic!("trees were due"),
    }
}

#[test]
fn a_new_scene_has_nothing_to_update() {
    let mut scene = Scene::new();
    assert_eq!(scene.next_id, NextId(0));
    assert!(scene.spline.nodes.is_empty());
    assert!(!scene.update_due);
    assert_eq!(tick(&mut scene, &vec![topic(0, 0, 0), topic(1, 5, 5)]), Ok(Growth::Unchanged));
    assert!(scene.spline.nodes.is_empty());
}

#[test]
fn a_scene_starts_with_three_topics() {
    let mut scene = Scene::new();
    let spawned = scene.setup();
    assert_eq!(spawned, vec![topic(0, -200, -50), topic(1, 300, 50), topic(2, 100, 250)]);
    assert_eq!(scene.next_id, NextId(3));
    assert!(scene.update_due);
    assert_eq!(pairs(tick(&mut scene, &spawned).unwrap()), vec![(0, 1), (1, 2)]);
    assert_eq!(scene.spline.nodes, spawned);
    assert!(!scene.update_due);
}

#[test]
fn add_topic_spawns_at_the_placeholder() {
    let mut scene = Scene::new();
    scene.setup();
    scene.update_due = false;
    let spawned = scene.on_new_topic_msg(&vec![Event::AddTopic]);
    assert_eq!(spawned, vec![topic(3, -120, 89)]);
    assert_eq!(spawned[0].position, placeholder());
    assert_eq!(placeholder(), Position { x: -120, y: 89 });
    assert_eq!(scene.next_id, NextId(4));
    assert!(scene.update_due);
}

#[test]
fn every_add_topic_of_a_tick_spawns() {
    let mut scene = Scene::new();
    scene.next_id = NextId(7);
    let spawned = scene.on_new_topic_msg(&vec![Event::AddTopic, Event::AddTopic, Event::AddTopic]);
    let ids: Vec<u32> = spawned.iter().map(|anchor| anchor.id).collect();
    assert_eq!(ids, vec![7, 8, 9]);
    assert!(spawned.iter().all(|anchor| anchor.position == placeholder()));
    assert_eq!(scene.next_id, NextId(10));
    assert!(scene.update_due);
}

#[test]
fn no_command_changes_nothing() {
    let mut scene = Scene::new();
    scene.next_id = NextId(5);
    assert!(scene.on_new_topic_msg(&Vec::new()).is_empty());
    assert_eq!(scene.next_id, NextId(5));
    assert!(!scene.update_due);
    scene.update_due = true;
    assert!(scene.on_new_topic_msg(&Vec::new()).is_empty());
    assert!(scene.update_due);
}

#[test]
fn commands_beyond_the_last_id_are_dropped() {
    let mut scene = Scene::new();
    scene.next_id = NextId(u32::MAX - 2);
    let spawned = scene.on_new_topic_msg(&vec![Event::AddTopic; 5]);
    let ids: Vec<u32> = spawned.iter().map(|anchor| anchor.id).collect();
    assert_eq!(ids, vec![u32::MAX - 2, u32::MAX - 1]);
    assert_eq!(scene.next_id, NextId(u32::MAX));
    assert!(scene.update_due);
    scene.update_due = false;
    assert!(scene.on_new_topic_msg(&vec![Event::AddTopic]).is_empty());
    assert!(!scene.update_due);
    let mut full = Scene::new();
    full.next_id = NextId(u32::MAX - 1);
    assert_eq!(full.setup().len(), 1);
    assert!(full.update_due);
}

#[test]
fn a_third_anchor_regrows_two_trees() {
    let mut scene = Scene::new();
    let mut live = vec![topic(0, -200, -50), topic(1, 300, 50)];
    scene.next_id = NextId(2);
    scene.on_anchor_moved();
    match tick(&mut scene, &live).unwrap() {
        Growth::Regrown { spans, .. } => {
            assert_eq!(spans, vec![Span { from: live[0], to: live[1] }]);
        }
        Growth::Unchanged => panic!("one tree was due"),
    }
    assert_eq!(tick(&mut scene, &live), Ok(Growth::Unchanged));

    live.extend(scene.on_new_topic_msg(&vec![Event::AddTopic]));
    assert_eq!(live.len(), 3);
    match tick(&mut scene, &live).unwrap() {
        Growth::Regrown { spans, .. } => {
            assert_eq!(
                spans,
                vec![Span { from: live[0], to: live[1] }, Span { from: live[1], to: live[2] }]
            );
            assert_eq!((spans[0].from.id, spans[0].to.id), (0, 1));
            assert_eq!((spans[1].from.id, spans[1].to.id), (1, 2));
        }
        Growth::Unchanged => panic!("two trees were due"),
    }
    assert_eq!(scene.spline.nodes, live);
    assert_eq!(tick(&mut scene, &live), Ok(Growth::Unchanged));
}

#[test]
fn anchors_out_of_position_order_are_processed_by_id() {
    let mut scene = Scene::new();
    scene.on_anchor_moved();
    let live = vec![topic(2, -500, 0), topic(0, 300, 50), topic(1, 100, 250), topic(3, -900, -900)];
    match tick(&mut scene, &live).unwrap() {
        Growth::Regrown { spans, .. } => {
            let found: Vec<(u32, u32)> =
                spans.iter().map(|span| (span.from.id, span.to.id)).collect();
            assert_eq!(found, vec![(0, 1), (1, 2), (2, 3)]);
            assert_eq!(spans[0].from.position, Position { x: 300, y: 50 });
            assert_eq!(spans[0].to.position, Position { x: 100, y: 250 });
        }
        Growth::Unchanged => panic!("trees were due"),
    }
    let ids: Vec<u32> = scene.spline.nodes.iter().map(|node| node.id).collect();
    assert_eq!(ids, vec![0, 1, 2, 3]);
    let mut other = Scene::new();
    other.on_anchor_moved();
    let shuffled = vec![live[3], live[1], live[0], live[2]];
    tick(&mut other, &shuffled).unwrap();
    assert_eq!(other.spline, scene.spline);
}

#[test]
fn a_moved_anchor_makes_an_update_due() {
    let mut scene = Scene::new();
    let mut live = scene.setup();
    tick(&mut scene, &live).unwrap();
    assert!(!scene.update_due);
    live[1].position = Position { x: 0, y: 0 };
    assert_eq!(tick(&mut scene, &live), Ok(Growth::Unchanged));
    assert_eq!(scene.spline.nodes[1].position, Position { x: 300, y: 50 });
    scene.on_anchor_moved();
    assert!(scene.update_due);
    assert_eq!(pairs(tick(&mut scene, &live).unwrap()), vec![(0, 1), (1, 2)]);
    assert_eq!(scene.spline.nodes, live);
    assert_eq!(scene.next_id, NextId(3));
}

#[test]
fn without_an_update_due_nothing_is_recomputed() {
    let before = vec![topic(5, 1, 1)];
    let mut scene = Scene::new();
    scene.spline.nodes = before.clone();
    let live = vec![topic(1, 0, 0), topic(0, 9, 9), topic(2, 4, 4)];
    assert_eq!(tick(&mut scene, &live), Ok(Growth::Unchanged));
    assert_eq!(scene.spline.nodes, before);
}

#[test]
fn fewer_than_two_anchors_grow_nothing() {
    let mut scene = Scene::new();
    scene.spline.nodes = vec![topic(9, 9, 9), topic(10, 0, 0)];
    scene.on_anchor_moved();
    assert_eq!(tick(&mut scene, &Vec::new()), Ok(Growth::Unchanged));
    assert!(scene.spline.nodes.is_empty());
    assert!(!scene.update_due);
    let single = vec![topic(0, -200, -50)];
    scene.on_anchor_moved();
    assert_eq!(tick(&mut scene, &single), Ok(Growth::Unchanged));
    assert_eq!(scene.spline.nodes, single);
}

#[test]
fn the_tree_is_the_drawing_of_the_derived_sequence() {
    let mut scene = Scene::new();
    let live = scene.setup();
    let sequence = lbranches::grammar::derive(&branch_rules(), branch_start(), GENERATIONS);
    let expected =
        interpret(&sequence, Point::origin(), Heading::Ahead, STEP_LENGTH, TURN_ANGLE).unwrap();
    match tick(&mut scene, &live).unwrap() {
        Growth::Regrown { spans, drawing } => {
            assert_eq!(spans.len(), 2);
            assert_eq!(drawing, expected);
            assert_eq!(drawing.segments.len(), 84);
            assert_eq!(drawing.leaves.len(), 63);
        }
        Growth::Unchanged => panic!("two trees were due"),
    }
    scene.on_anchor_moved();
    match scene.update_spline(&live, &branch_rules(), branch_start(), 2).unwrap() {
        Growth::Regrown { drawing, .. } => {
            assert_eq!(drawing.segments.len(), 18);
            assert_eq!(drawing.leaves.len(), 15);
        }
        Growth::Unchanged => panic!("two trees were due"),
    }
}

#[test]
fn a_grammar_outside_the_alphabet_fails_the_update() {
    let mut rules = RuleSet::new();
    rules.set_str('X', "F[Y]");
    let live = vec![topic(1, 0, 0), topic(0, 50, 50)];
    let mut scene = Scene::new();
    scene.on_anchor_moved();
    let outcome = scene.update_spline(&live, &rules, vec!['X'], 1);
    assert_eq!(outcome, Err(TurtleError::UnexpectedSymbol { index: 2, symbol: 'Y' }));
    assert_eq!(scene.spline.nodes, vec![live[1], live[0]]);
    assert!(!scene.update_due);
    let mut closing = RuleSet::new();
    closing.set_str('X', "F]");
    closing.set_str('F', "FF");
    scene.on_anchor_moved();
    let outcome = scene.update_spline(&live, &closing, vec!['X'], 2);
    assert_eq!(outcome, Err(TurtleError::StackUnderflow { index: 2 }));
}
