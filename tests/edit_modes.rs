use creature_editor::controls::{
    editor_control, editor_step, ActionEvent, ControlEffect, CursorGrab, EditMode, UnitAxis,
};
use creature_editor::selection::{EntitySelected, Selectable, SelectableEntity};
use creature_editor::EntityId;

fn joint(n: u64) -> EntitySelected {
    EntitySelected(Some(SelectableEntity::Joint(EntityId(n))))
}

fn connector(n: u64) -> EntitySelected {
    EntitySelected(Some(SelectableEntity::Connector(EntityId(n))))
}

#[test]
fn default_mode_entries() {
    let j = EntityId(1);
    let (m, fx) = editor_step(EditMode::Default, &joint(1), ActionEvent::AdjustExtend);
    assert_eq!(m, EditMode::AdjustExtend(j));
    assert_eq!(fx, vec![ControlEffect::Cursor(CursorGrab::Confined), ControlEffect::Cache(j)]);
    let (m, fx) = editor_step(EditMode::Default, &joint(1), ActionEvent::AdjustGrab);
    assert_eq!(m, EditMode::AdjustGrab(j));
    assert_eq!(fx, vec![ControlEffect::Cache(j)]);
    let (m, _) = editor_step(EditMode::Default, &joint(1), ActionEvent::JointLink);
    assert_eq!(m, EditMode::JointLink(j));
    let (m, fx) = editor_step(EditMode::Default, &connector(2), ActionEvent::AdjustGrab);
    assert_eq!(m, EditMode::Default);
    assert!(fx.is_empty());
    let (m, _) = editor_step(EditMode::Default, &EntitySelected(None), ActionEvent::JointAdd);
    assert_eq!(m, EditMode::Default);
}

#[test]
fn muscle_mode_two_clicks() {
    let c1 = EntityId(10);
    let (m, fx) = editor_step(EditMode::Default, &connector(10), ActionEvent::MuscleAdd);
    assert_eq!(m, EditMode::MuscleAdd(c1));
    assert_eq!(fx, vec![ControlEffect::ProvisionalMuscle(c1)]);
    // The same connector again: nothing happens, muscle mode stays.
    let (m2, fx) = editor_step(m, &connector(10), ActionEvent::Confirm);
    assert_eq!(m2, EditMode::MuscleAdd(c1));
    assert!(fx.is_empty());
    // Another connector: the muscle is asked for.
    let (m3, fx) = editor_step(m, &connector(11), ActionEvent::Confirm);
    assert_eq!(m3, EditMode::MuscleAdd(c1));
    assert_eq!(fx, vec![ControlEffect::MuscleAdd]);
    // A joint instead: back to the default mode, the provisional muscle goes.
    let (m4, fx) = editor_step(m, &joint(12), ActionEvent::Confirm);
    assert_eq!(m4, EditMode::Default);
    assert_eq!(fx, vec![ControlEffect::DropProvisional]);
    // The mode key again, or cancel: the same.
    let (m5, fx) = editor_step(m, &connector(10), ActionEvent::MuscleAdd);
    assert_eq!(m5, EditMode::Default);
    assert_eq!(fx, vec![ControlEffect::DropProvisional]);
    let (m6, fx) = editor_step(m, &connector(11), ActionEvent::Cancel);
    assert_eq!(m6, EditMode::Default);
    assert_eq!(fx, vec![ControlEffect::DropProvisional]);
}

#[test]
fn joint_add_and_link_confirm() {
    let j = EntityId(1);
    let (m, fx) = editor_step(EditMode::JointAdd(j), &joint(1), ActionEvent::Confirm);
    assert_eq!(m, EditMode::JointAdd(j));
    assert_eq!(fx, vec![ControlEffect::JointAdd]);
    let (m, _) = editor_step(EditMode::JointAdd(j), &joint(2), ActionEvent::Confirm);
    assert_eq!(m, EditMode::Default);
    let (m, _) = editor_step(EditMode::JointAdd(j), &joint(1), ActionEvent::JointAdd);
    assert_eq!(m, EditMode::Default);
    let (m, fx) = editor_step(EditMode::JointLink(j), &joint(2), ActionEvent::Confirm);
    assert_eq!(m, EditMode::JointLink(j));
    assert_eq!(fx, vec![ControlEffect::JointLink]);
    let (m, fx) = editor_step(EditMode::JointLink(j), &joint(1), ActionEvent::Confirm);
    assert_eq!(m, EditMode::Default);
    assert!(fx.is_empty());
}

#[test]
fn cancel_undoes_adjustments() {
    let j = EntityId(4);
    for mode in [
        EditMode::AdjustGrab(j),
        EditMode::AdjustRotate(j),
        EditMode::AdjustAxis(j, UnitAxis::X),
        EditMode::AdjustRotateAxis(j, UnitAxis::Y),
    ] {
        let (m, fx) = editor_step(mode, &joint(4), ActionEvent::Cancel);
        assert_eq!(m, EditMode::Default);
        assert!(fx.contains(&ControlEffect::Undo(j)));
    }
    let (m, fx) = editor_step(EditMode::AdjustExtend(j), &joint(4), ActionEvent::AdjustExtend);
    assert_eq!(m, EditMode::Default);
    assert_eq!(fx, vec![ControlEffect::Cursor(CursorGrab::Released), ControlEffect::Undo(j)]);
    let (m, fx) = editor_step(EditMode::AdjustGrab(j), &joint(4), ActionEvent::Confirm);
    assert_eq!(m, EditMode::Default);
    assert!(fx.is_empty());
}

#[test]
fn axis_changes() {
    let j = EntityId(4);
    let (m, fx) = editor_step(EditMode::AdjustGrab(j), &joint(4), ActionEvent::AxisChange(UnitAxis::X));
    assert_eq!(m, EditMode::AdjustAxis(j, UnitAxis::X));
    assert_eq!(fx, vec![ControlEffect::Cache(j)]);
    let (m2, fx) = editor_step(m, &joint(4), ActionEvent::AxisChange(UnitAxis::Z));
    assert_eq!(m2, EditMode::AdjustAxis(j, UnitAxis::Z));
    assert_eq!(fx, vec![ControlEffect::Cache(j)]);
    let (m3, fx) = editor_step(m2, &joint(4), ActionEvent::AxisChange(UnitAxis::Z));
    assert_eq!(m3, EditMode::AdjustGrab(j));
    assert!(fx.is_empty());
    let (m4, _) = editor_step(EditMode::AdjustRotate(j), &joint(4), ActionEvent::AxisChange(UnitAxis::Y));
    assert_eq!(m4, EditMode::AdjustRotateAxis(j, UnitAxis::Y));
    let (m5, _) = editor_step(m4, &joint(4), ActionEvent::AxisChange(UnitAxis::Y));
    assert_eq!(m5, EditMode::AdjustRotate(j));
    let (m6, fx) = editor_step(EditMode::AdjustExtend(j), &joint(4), ActionEvent::AxisChange(UnitAxis::Y));
    assert_eq!(m6, EditMode::AdjustExtend(j));
    assert!(fx.is_empty());
}

#[test]
fn save_and_delete_pass_through() {
    let (m, fx) = editor_step(EditMode::AdjustGrab(EntityId(3)), &joint(3), ActionEvent::Save);
    assert_eq!(m, EditMode::AdjustGrab(EntityId(3)));
    assert_eq!(fx, vec![ControlEffect::Save]);
    let (_, fx) = editor_step(EditMode::Default, &EntitySelected(None), ActionEvent::Delete);
    assert_eq!(fx, vec![ControlEffect::Delete]);
}

#[test]
fn a_frame_of_actions() {
    let mut mode = EditMode::default();
    let fx = editor_control(
        &mut mode,
        &joint(5),
        &vec![ActionEvent::AdjustGrab, ActionEvent::AxisChange(UnitAxis::X), ActionEvent::Cancel, ActionEvent::Save],
    );
    assert_eq!(mode, EditMode::Default);
    assert_eq!(
        fx,
        vec![
            ControlEffect::Cache(EntityId(5)),
            ControlEffect::Cache(EntityId(5)),
            ControlEffect::Cursor(CursorGrab::Released),
            ControlEffect::Undo(EntityId(5)),
            ControlEffect::Save,
        ]
    );
}

#[test]
fn click_selects_and_clears() {
    let mut sel = EntitySelected::default();
    assert!(sel.is_none());
    let j = SelectableEntity::Joint(EntityId(1));
    assert!(sel.click(Some((EntityId(1), Some(j))), false));
    assert!(sel.is_joint());
    assert!(sel.contains(EntityId(1)));
    assert_eq!(sel.get(), Some(EntityId(1)));
    // Same entity again: nothing changes.
    assert!(!sel.click(Some((EntityId(1), Some(j))), false));
    // Blocked: nothing changes.
    let c = SelectableEntity::Connector(EntityId(2));
    assert!(!sel.click(Some((EntityId(2), Some(c))), true));
    assert!(sel.is_joint());
    // Something else selectable.
    assert!(sel.click(Some((EntityId(2), Some(c))), false));
    assert!(sel.is_connector());
    // Nothing selectable hit: cleared.
    assert!(sel.click(Some((EntityId(3), None)), false));
    assert!(sel.is_none());
    assert!(!sel.click(None, false));
    sel.set(Some(SelectableEntity::Muscle(EntityId(9))));
    assert!(sel.is_muscle() && sel.is_some());
    let s = Selectable::with_type(c);
    assert!(!s.selected);
}
