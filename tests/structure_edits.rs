use bevy::math::Vec3;
use creature_editor::adjust::AdjustPlan;
use creature_editor::controls::{editor_step, ActionEvent, ControlEffect, EditMode, UnitAxis};
use creature_editor::muscle_map::{Connection, MuscleMap};
use creature_editor::selection::{EntitySelected, SelectableEntity};
use creature_editor::structure::{JointLink, MuscleLink, Structure};
use creature_editor::EntityId;

fn e(n: u64) -> EntityId {
    EntityId(n)
}

/// A root joint with two children: (structure, root, child1, child2, edge1, edge2).
fn two_arms() -> (Structure, u32, u32, u32, u32, u32) {
    let mut s = Structure::new();
    let root = s.add_node(Vec3::ZERO, Some(e(1))).unwrap();
    let (c1, e1) = s.add_joint(root, Vec3::new(0.0, 2.0, 0.0), e(2), e(3)).unwrap();
    let (c2, e2) = s.add_joint(root, Vec3::new(2.0, 0.0, 0.0), e(4), e(5)).unwrap();
    (s, root, c1, c2, e1, e2)
}

#[test]
fn extend_on_root_falls_back_to_grab() {
    let mut s = Structure::new();
    let root = s.add_node(Vec3::ZERO, Some(e(7))).unwrap();
    assert_eq!(s.node_parent(root), None);
    let plan = s.adjust_plan(EditMode::AdjustExtend(e(7)), Some(root));
    assert_eq!(plan, AdjustPlan::FallBackToGrab);
}

#[test]
fn adjust_plans_follow_the_parent() {
    let (s, root, c1, _, _, _) = two_arms();
    assert_eq!(
        s.adjust_plan(EditMode::AdjustExtend(e(2)), Some(c1)),
        AdjustPlan::Extend { joint: c1, parent: root }
    );
    assert_eq!(
        s.adjust_plan(EditMode::AdjustRotate(e(2)), Some(c1)),
        AdjustPlan::Sphere { joint: c1, center: root, rotate: true }
    );
    assert_eq!(
        s.adjust_plan(EditMode::AdjustGrab(e(1)), Some(root)),
        AdjustPlan::Sphere { joint: root, center: root, rotate: false }
    );
    assert_eq!(
        s.adjust_plan(EditMode::AdjustAxis(e(2), UnitAxis::Y), Some(c1)),
        AdjustPlan::Axis { joint: c1, axis: UnitAxis::Y }
    );
    assert_eq!(
        s.adjust_plan(EditMode::AdjustRotateAxis(e(2), UnitAxis::Z), Some(c1)),
        AdjustPlan::RotateAxis { joint: c1, parent: root, axis: UnitAxis::Z }
    );
    assert_eq!(
        s.adjust_plan(EditMode::AdjustRotateAxis(e(1), UnitAxis::Z), Some(root)),
        AdjustPlan::FallBackToGrab
    );
    assert_eq!(
        s.adjust_plan(EditMode::AdjustAxis(e(1), UnitAxis::X), Some(root)),
        AdjustPlan::Axis { joint: root, axis: UnitAxis::X }
    );
    assert_eq!(s.adjust_plan(EditMode::Default, Some(c1)), AdjustPlan::Idle);
    assert_eq!(s.adjust_plan(EditMode::AdjustGrab(e(2)), None), AdjustPlan::Idle);
}

#[test]
fn add_joint_records_parent_and_connector() {
    let (s, root, c1, c2, e1, e2) = two_arms();
    assert_eq!(s.node_count(), 3);
    assert_eq!(s.edge_count(), 2);
    assert_ne!(c1, c2);
    assert_ne!(e1, e2);
    assert_eq!(s.node_parent(c1), Some(root));
    assert_eq!(s.node_parent_entity(c1), Some(e(1)));
    assert_eq!(s.node_parent_entity(root), None);
    assert_eq!(s.node_to_entity(c2), Some(e(4)));
    assert_eq!(s.edge_to_entity(e2), Some(e(5)));
    assert_eq!(s.edge_endpoints(e1), Some((c1, root)));
    assert_eq!(s.find_edge(root, c1), Some(e1));
    assert_eq!(s.find_edge(c1, c2), None);
    assert_eq!(s.parent_edge(c1), Some(e1));
    assert_eq!(s.parent_edge(root), None);
    let mut around = s.edges_of(root);
    around.sort();
    let mut expected = vec![e1, e2];
    expected.sort();
    assert_eq!(around, expected);
    assert_eq!(s.node(c1).unwrap().pos, Vec3::new(0.0, 2.0, 0.0));
}

#[test]
fn add_joint_on_missing_parent_changes_nothing() {
    let mut s = Structure::default();
    assert_eq!(s.add_joint(9, Vec3::ZERO, e(1), e(2)), None);
    assert_eq!(s.node_count(), 0);
    assert_eq!(s.edge_count(), 0);
}

#[test]
fn lookups_on_stale_indices_are_none() {
    let (s, _, _, _, _, _) = two_arms();
    assert_eq!(s.node_to_entity(40), None);
    assert_eq!(s.edge_to_entity(40), None);
    assert_eq!(s.node_parent(40), None);
    assert_eq!(s.node_parent_entity(40), None);
    assert_eq!(s.edge_endpoints(40), None);
    assert!(s.node(40).is_none());
}

#[test]
fn set_position_and_entities() {
    let (mut s, root, c1, _, e1, _) = two_arms();
    assert!(s.set_node_pos(c1, Vec3::new(0.0, 5.0, 0.0)));
    assert_eq!(s.node(c1).unwrap().pos, Vec3::new(0.0, 5.0, 0.0));
    assert_eq!(s.node_parent(c1), Some(root));
    assert!(s.set_node_entity(c1, e(20)));
    assert_eq!(s.node_to_entity(c1), Some(e(20)));
    assert!(s.set_edge_entity(e1, e(21)));
    assert_eq!(s.edge_to_entity(e1), Some(e(21)));
    assert!(!s.set_node_pos(99, Vec3::ZERO));
    assert!(!s.set_node_entity(99, e(1)));
    assert!(!s.set_edge_entity(99, e(1)));
}

#[test]
fn link_joints_outcomes() {
    let (mut s, root, c1, c2, e1, _) = two_arms();
    assert_eq!(s.link_joints(c1, c1, None), JointLink::SameJoint);
    assert_eq!(s.link_joints(c1, 77, None), JointLink::Missing);
    // root is c1's parent: making c1 the parent of root would close a loop.
    assert_eq!(s.link_joints(root, c1, None), JointLink::WouldCycle);
    assert_eq!(s.node_parent(root), None);
    // c1 and root are already joined: only the parent is set.
    assert_eq!(s.link_joints(c1, root, None), JointLink::ParentSet(e1));
    assert_eq!(s.node_parent(c1), Some(root));
    assert_eq!(s.edge_count(), 2);
    // c1 and c2 are not joined: a new connector appears.
    match s.link_joints(c1, c2, Some(e(30))) {
        JointLink::Linked(edge) => {
            assert_eq!(s.edge_to_entity(edge), Some(e(30)));
            assert_eq!(s.edge_endpoints(edge), Some((c1, c2)));
            assert_eq!(s.find_edge(c2, c1), Some(edge));
        }
        other => panic!("unexpected {:?}", other),
    }
    assert_eq!(s.node_parent(c1), Some(c2));
    assert_eq!(s.edge_count(), 3);
    // c1 now hangs from c2, which hangs from root.
    assert!(s.has_ancestor(c1, root));
    assert!(!s.has_ancestor(root, c1));
    assert_eq!(s.link_joints(c2, c1, None), JointLink::WouldCycle);
}

#[test]
fn connector_muscle_scenario() {
    let (mut s, _, _, _, e1, e2) = two_arms();
    // Connector entities of e1 and e2.
    let c1 = s.edge_to_entity(e1).unwrap();
    let c2 = s.edge_to_entity(e2).unwrap();
    let (mode, _) =
        editor_step(EditMode::Default, &EntitySelected(Some(SelectableEntity::Connector(c1))), ActionEvent::MuscleAdd);
    assert_eq!(mode, EditMode::MuscleAdd(c1));
    // Confirming on the first connector again is a no-op.
    let (mode, fx) = editor_step(mode, &EntitySelected(Some(SelectableEntity::Connector(c1))), ActionEvent::Confirm);
    assert!(fx.is_empty());
    assert_eq!(mode, EditMode::MuscleAdd(c1));
    let (mode, fx) = editor_step(mode, &EntitySelected(Some(SelectableEntity::Connector(c2))), ActionEvent::Confirm);
    assert_eq!(fx, vec![ControlEffect::MuscleAdd]);
    assert_eq!(mode, EditMode::MuscleAdd(c1));
    assert_eq!(s.link_muscle(e1, e2, e(90)), MuscleLink::Linked);
    assert_eq!(s.muscle_between(e1, e2), Some(e(90)));
    assert_eq!(s.muscle_between(e2, e1), Some(e(90)));

    // The same link again is refused and changes nothing.
    assert_eq!(s.link_muscle(e1, e2, e(91)), MuscleLink::Duplicate);
    assert_eq!(s.muscle_between(e1, e2), Some(e(90)));
    assert_eq!(s.muscle_between(e2, e1), Some(e(90)));
    let (mode, _) = editor_step(mode, &EntitySelected(Some(SelectableEntity::Connector(c2))), ActionEvent::Cancel);
    assert_eq!(mode, EditMode::Default);
}

#[test]
fn parent_always_has_a_connector() {
    let (mut s, root, c1, c2, _, _) = two_arms();
    s.link_joints(c2, c1, Some(e(9)));
    for n in [root, c1, c2] {
        if let Some(p) = s.node_parent(n) {
            assert!(s.find_edge(n, p).is_some());
        }
    }
}

#[test]
fn muscle_commit_is_symmetric() {
    let (mut s, _, _, _, e1, e2) = two_arms();
    assert!(!s.has_muscle(e1, e2));
    assert_eq!(s.link_muscle(e1, e2, e(50)), MuscleLink::Linked);
    assert_eq!(s.muscle_between(e1, e2), Some(e(50)));
    assert_eq!(s.muscle_between(e2, e1), Some(e(50)));
    assert!(s.has_muscle(e2, e1));
}

#[test]
fn second_muscle_link_is_refused() {
    let (mut s, _, _, _, e1, e2) = two_arms();
    assert_eq!(s.link_muscle(e1, e2, e(50)), MuscleLink::Linked);
    assert_eq!(s.link_muscle(e1, e2, e(51)), MuscleLink::Duplicate);
    assert_eq!(s.link_muscle(e2, e1, e(52)), MuscleLink::Duplicate);
    assert_eq!(s.muscle_between(e1, e2), Some(e(50)));
    assert_eq!(s.muscle_between(e2, e1), Some(e(50)));
    assert_eq!(s.link_muscle(e1, e1, e(53)), MuscleLink::SameAnchor);
    assert_eq!(s.link_muscle(e1, 99, e(54)), MuscleLink::Missing);
}

#[test]
fn delete_muscle_clears_both_anchors() {
    let (mut s, _, _, _, e1, e2) = two_arms();
    s.link_muscle(e1, e2, e(50));
    assert_eq!(s.delete_muscle(e2, e1), Some(e(50)));
    assert!(!s.has_muscle(e1, e2));
    assert!(!s.has_muscle(e2, e1));
    assert_eq!(s.delete_muscle(e1, e2), None);
}

#[test]
fn delete_joint_orphans_children_and_drops_muscles() {
    // P - J, J - C1, J - C2, and P - K with a muscle to J - C1.
    let mut s = Structure::new();
    let p = s.add_node(Vec3::ZERO, Some(e(1))).unwrap();
    let (j, pj) = s.add_joint(p, Vec3::new(0.0, 2.0, 0.0), e(2), e(3)).unwrap();
    let (c1, jc1) = s.add_joint(j, Vec3::new(0.0, 4.0, 0.0), e(4), e(5)).unwrap();
    let (c2, _jc2) = s.add_joint(j, Vec3::new(2.0, 2.0, 0.0), e(6), e(7)).unwrap();
    let (k, pk) = s.add_joint(p, Vec3::new(-2.0, 0.0, 0.0), e(8), e(9)).unwrap();
    assert_eq!(s.link_muscle(jc1, pk, e(10)), MuscleLink::Linked);
    assert_eq!(s.link_muscle(jc1, pj, e(11)), MuscleLink::Linked);
    assert_eq!(s.edges_of(p).len(), 2);

    let removed = s.delete_joint(j).unwrap();
    assert_eq!(removed.joint, Some(e(2)));
    let mut conns = removed.connectors.clone();
    conns.sort_by_key(|c| c.0);
    assert_eq!(conns, vec![e(3), e(5), e(7)]);
    let mut muscles = removed.muscles.clone();
    muscles.sort_by_key(|m| m.0);
    assert_eq!(muscles, vec![e(10), e(11)]);

    assert_eq!(s.node_count(), 4);
    assert!(s.node(j).is_none());
    assert_eq!(s.edges_of(p), vec![pk]);
    assert_eq!(s.node_parent(c1), None);
    assert_eq!(s.node_parent(c2), None);
    assert_eq!(s.node_parent(k), Some(p));
    assert_eq!(s.edge_count(), 1);
    assert!(!s.has_muscle(pk, jc1));
    assert_eq!(s.graph().edge_weight(petgraph::stable_graph::EdgeIndex::new(pk as usize)).unwrap().muscles.len(), 0);
    for n in s.node_indices() {
        assert_ne!(s.node_parent(n), Some(j));
    }
    assert!(s.delete_joint(j).is_none());
}

#[test]
fn delete_connector_clears_parent_and_muscles() {
    let (mut s, root, c1, c2, e1, e2) = two_arms();
    s.link_muscle(e1, e2, e(60));
    let removed = s.delete_connector(e1).unwrap();
    assert_eq!(removed.joint, None);
    assert_eq!(removed.connectors, vec![e(3)]);
    assert_eq!(removed.muscles, vec![e(60)]);
    assert_eq!(s.node_parent(c1), None);
    assert_eq!(s.node_parent(c2), Some(root));
    assert!(!s.has_muscle(e2, e1));
    assert_eq!(s.edge_count(), 1);
    assert_eq!(s.node_count(), 3);
    assert!(s.delete_connector(e1).is_none());
}

#[test]
fn save_then_load_keeps_the_structure() {
    // Three joints, two connectors, one muscle.
    let (mut s, root, c1, c2, e1, e2) = two_arms();
    s.link_muscle(e1, e2, e(70));
    s.save_muscles();
    assert_eq!(
        s.graph().edge_weight(petgraph::stable_graph::EdgeIndex::new(e1 as usize)).unwrap().muscle_data,
        vec![e2]
    );

    let loaded_graph = s.graph().map(
        |_, p| creature_editor::structure::Point { entityid: None, ..*p },
        |_, c| Connection { entityid: None, muscles: MuscleMap::new(), muscle_data: c.muscle_data.clone() },
    );
    let mut loaded = Structure::from_graph(loaded_graph).unwrap();
    assert_eq!(loaded.node_count(), 3);
    assert_eq!(loaded.edge_count(), 2);
    assert!(!loaded.has_muscle(e1, e2));
    let pairs = loaded.muscle_pairs();
    assert_eq!(pairs, vec![(e1.min(e2), e1.max(e2))]);
    assert!(loaded.attach_muscles(&pairs, &vec![e(80)]));
    assert_eq!(loaded.muscle_between(e1, e2), Some(e(80)));
    assert_eq!(loaded.muscle_between(e2, e1), Some(e(80)));
    assert_eq!(loaded.node_parent(c1), Some(root));
    assert_eq!(loaded.node_parent(c2), Some(root));
    assert_eq!(loaded.node(c2).unwrap().pos, Vec3::new(2.0, 0.0, 0.0));
}

#[test]
fn attach_muscles_needs_one_handle_per_pair() {
    let (mut s, _, _, _, e1, e2) = two_arms();
    assert!(!s.attach_muscles(&vec![(e1, e2)], &vec![]));
    assert!(!s.has_muscle(e1, e2));
    assert!(s.attach_muscles(&vec![(e1, e1), (e1, 90), (e1, e2), (e2, e1)], &vec![e(1), e(2), e(3), e(4)]));
    assert!(s.has_muscle(e2, e1));
    assert!(!s.has_muscle(e1, e1));
    // The first valid pair decides the handle; the repeat is refused.
    assert_eq!(s.muscle_between(e1, e2), Some(e(3)));
    assert_eq!(s.muscle_between(e2, e1), Some(e(3)));
    assert_eq!(s.muscle_handles(e1), vec![e(3)]);
    assert!(s.muscle_handles(99).is_empty());
}

#[test]
fn load_refuses_parent_without_connector() {
    let mut g = creature_editor::graph::JointGraph::default();
    let a = g.add_node(creature_editor::structure::Point { entityid: None, pos: Vec3::ZERO, parent: None });
    g.add_node(creature_editor::structure::Point {
        entityid: None,
        pos: Vec3::ONE,
        parent: Some(a.index() as u32),
    });
    assert!(Structure::from_graph(g).is_none());
}

#[test]
fn muscle_pairs_skip_unknown_edges() {
    let mut g = creature_editor::graph::JointGraph::default();
    let a = g.add_node(creature_editor::structure::Point { entityid: None, pos: Vec3::ZERO, parent: None });
    let b = g.add_node(creature_editor::structure::Point { entityid: None, pos: Vec3::ONE, parent: Some(a.index() as u32) });
    let mut c = Connection::new(None);
    c.muscle_data = vec![0, 5];
    g.add_edge(b, a, c);
    let s = Structure::from_graph(g).unwrap();
    assert!(s.muscle_pairs().is_empty());
}

#[test]
fn highlight_includes_parent_connector_for_joints() {
    let (s, root, c1, _, _, _) = two_arms();
    let joint = EntitySelected(Some(SelectableEntity::Joint(e(2))));
    assert_eq!(s.highlight_targets(&joint, Some(c1)), vec![e(2), e(3)]);
    let root_sel = EntitySelected(Some(SelectableEntity::Joint(e(1))));
    assert_eq!(s.highlight_targets(&root_sel, Some(root)), vec![e(1)]);
    let conn = EntitySelected(Some(SelectableEntity::Connector(e(3))));
    assert_eq!(s.highlight_targets(&conn, None), vec![e(3)]);
    let muscle = EntitySelected(Some(SelectableEntity::Muscle(e(9))));
    assert_eq!(s.highlight_targets(&muscle, None), vec![e(9)]);
    assert!(s.highlight_targets(&EntitySelected(None), None).is_empty());
}

#[test]
fn muscle_map_insert_remove() {
    let mut m = MuscleMap::new();
    m.insert(3, e(1));
    m.insert(4, e(2));
    m.insert(3, e(5));
    assert_eq!(m.len(), 2);
    assert_eq!(m.get(3), Some(e(5)));
    assert_eq!(m.keys(), vec![3, 4]);
    assert_eq!(m.remove(3), Some(e(5)));
    assert_eq!(m.remove(3), None);
    assert!(!m.contains_key(3));
    assert!(m.contains_key(4));
}
