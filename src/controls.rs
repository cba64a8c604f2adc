//! The edit-mode state machine: what each input action does in each mode.
use vstd::prelude::*;

use crate::selection::{EntitySelected, SelectableEntity};
use crate::EntityId;

verus! {

/// A world axis.
#[derive(Clone, Copy, Debug, PartialEq, Eq, Hash, Structural)]
pub enum UnitAxis {
    X,
    Y,
    Z,
}

/// An input action, as the key and mouse bindings produce it.
#[derive(Clone, Copy, Debug, PartialEq, Eq, Structural)]
pub enum ActionEvent {
    Confirm,
    Cancel,
    Delete,
    Save,
    JointAdd,
    JointLink,
    MuscleAdd,
    AdjustGrab,
    AdjustExtend,
    AdjustRotate,
    AxisChange(UnitAxis),
}

/// The current edit mode, with the entity it works on.
#[derive(Clone, Copy, Debug, PartialEq, Eq, Structural)]
pub enum EditMode {
    Default,
    JointAdd(EntityId),
    JointLink(EntityId),
    MuscleAdd(EntityId),
    AdjustGrab(EntityId),
    AdjustExtend(EntityId),
    AdjustAxis(EntityId, UnitAxis),
    AdjustRotate(EntityId),
    AdjustRotateAxis(EntityId, UnitAxis),
}

impl Default for EditMode {
    fn default() -> (r: EditMode)
        ensures
            r == EditMode::Default,
    {
        EditMode::Default
    }
}

/// How the cursor is held.
#[derive(Clone, Copy, Debug, PartialEq, Eq, Structural)]
pub enum CursorGrab {
    /// Kept inside the window.
    Confined,
    /// Free to leave it.
    Released,
}

/// Work that a transition hands to the host.
#[derive(Clone, Copy, Debug, PartialEq, Eq, Structural)]
pub enum ControlEffect {
    /// Hold the cursor this way.
    Cursor(CursorGrab),
    /// Remember the joint's current position, for a later undo.
    Cache(EntityId),
    /// Put the joint back where it was last remembered.
    Undo(EntityId),
    /// Add a joint on the target.
    JointAdd,
    /// Link the target joint to the selected one.
    JointLink,
    /// Show a provisional muscle anchored on this connector, until the muscle is completed.
    ProvisionalMuscle(EntityId),
    /// Take away the provisional muscle, if one is shown.
    DropProvisional,
    /// Add a muscle between the target connector and the selected one.
    MuscleAdd,
    /// Save the structure.
    Save,
    /// Delete the selected entity.
    Delete,
}

/// Whether `sel` holds entity `e`.
pub open spec fn selects(sel: EntitySelected, e: EntityId) -> bool {
    sel.0.is_some() && sel.0.unwrap().handle() == e
}

/// The mode after `action`, in mode `mode`, with `sel` selected.
pub open spec fn next_mode(mode: EditMode, sel: EntitySelected, action: ActionEvent) -> EditMode {
    match mode {
        EditMode::Default => match sel.0 {
            Some(SelectableEntity::Joint(j)) => match action {
                ActionEvent::JointAdd => EditMode::JointAdd(j),
                ActionEvent::JointLink => EditMode::JointLink(j),
                ActionEvent::AdjustExtend => EditMode::AdjustExtend(j),
                ActionEvent::AdjustGrab => EditMode::AdjustGrab(j),
                ActionEvent::AdjustRotate => EditMode::AdjustRotate(j),
                _ => mode,
            },
            Some(SelectableEntity::Connector(c)) => match action {
                ActionEvent::MuscleAdd => EditMode::MuscleAdd(c),
                _ => mode,
            },
            _ => mode,
        },
        EditMode::JointAdd(e) => match action {
            ActionEvent::JointAdd | ActionEvent::Cancel => EditMode::Default,
            ActionEvent::Confirm => if selects(sel, e) {
                mode
            } else {
                EditMode::Default
            },
            _ => mode,
        },
        EditMode::JointLink(e) => match action {
            ActionEvent::Cancel => EditMode::Default,
            ActionEvent::Confirm => if sel.0 matches Some(SelectableEntity::Joint(_)) && !selects(
                sel,
                e,
            ) {
                mode
            } else {
                EditMode::Default
            },
            _ => mode,
        },
        EditMode::MuscleAdd(_) => match action {
            ActionEvent::Cancel | ActionEvent::MuscleAdd => EditMode::Default,
            ActionEvent::Confirm => if sel.0 matches Some(SelectableEntity::Connector(_)) {
                mode
            } else {
                EditMode::Default
            },
            _ => mode,
        },
        EditMode::AdjustGrab(e) => match action {
            ActionEvent::AdjustGrab | ActionEvent::Cancel | ActionEvent::Confirm => EditMode::Default,
            ActionEvent::AxisChange(axis) => EditMode::AdjustAxis(e, axis),
            _ => mode,
        },
        EditMode::AdjustExtend(_) => match action {
            ActionEvent::AdjustExtend | ActionEvent::Cancel | ActionEvent::Confirm => EditMode::Default,
            _ => mode,
        },
        EditMode::AdjustAxis(e, axis) => match action {
            ActionEvent::AxisChange(new_axis) => if new_axis == axis {
                EditMode::AdjustGrab(e)
            } else {
                EditMode::AdjustAxis(e, new_axis)
            },
            ActionEvent::Cancel | ActionEvent::Confirm => EditMode::Default,
            _ => mode,
        },
        EditMode::AdjustRotate(e) => match action {
            ActionEvent::AdjustRotate | ActionEvent::Cancel | ActionEvent::Confirm => EditMode::Default,
            ActionEvent::AxisChange(axis) => EditMode::AdjustRotateAxis(e, axis),
            _ => mode,
        },
        EditMode::AdjustRotateAxis(e, axis) => match action {
            ActionEvent::AxisChange(new_axis) => if new_axis == axis {
                EditMode::AdjustRotate(e)
            } else {
                EditMode::AdjustRotateAxis(e, new_axis)
            },
            ActionEvent::Cancel | ActionEvent::Confirm => EditMode::Default,
            _ => mode,
        },
    }
}

/// The work that `action` hands to the host, in mode `mode`, with `sel` selected; a save
/// or a delete is handed on in every mode, after the rest.
pub open spec fn step_effects(mode: EditMode, sel: EntitySelected, action: ActionEvent) -> Seq<
    ControlEffect,
> {
    let local: Seq<ControlEffect> = match mode {
        EditMode::Default => match sel.0 {
            Some(SelectableEntity::Joint(j)) => match action {
                ActionEvent::AdjustExtend => seq![
                    ControlEffect::Cursor(CursorGrab::Confined),
                    ControlEffect::Cache(j),
                ],
                ActionEvent::AdjustGrab | ActionEvent::AdjustRotate => seq![ControlEffect::Cache(j)],
                _ => seq![],
            },
            Some(SelectableEntity::Connector(c)) => match action {
                ActionEvent::MuscleAdd => seq![ControlEffect::ProvisionalMuscle(c)],
                _ => seq![],
            },
            _ => seq![],
        },
        EditMode::JointAdd(e) => match action {
            ActionEvent::Confirm => if selects(sel, e) {
                seq![ControlEffect::JointAdd]
            } else {
                seq![]
            },
            _ => seq![],
        },
        EditMode::JointLink(e) => match action {
            ActionEvent::Confirm => if sel.0 matches Some(SelectableEntity::Joint(_)) && !selects(
                sel,
                e,
            ) {
                seq![ControlEffect::JointLink]
            } else {
                seq![]
            },
            _ => seq![],
        },
        EditMode::MuscleAdd(e) => match action {
            ActionEvent::Cancel | ActionEvent::MuscleAdd => seq![ControlEffect::DropProvisional],
            ActionEvent::Confirm => if !(sel.0 matches Some(SelectableEntity::Connector(_))) {
                seq![ControlEffect::DropProvisional]
            } else if selects(sel, e) {
                seq![]
            } else {
                seq![ControlEffect::MuscleAdd]
            },
            _ => seq![],
        },
        EditMode::AdjustGrab(e) => match action {
            ActionEvent::AdjustGrab | ActionEvent::Cancel => seq![ControlEffect::Undo(e)],
            ActionEvent::AxisChange(_) => seq![ControlEffect::Cache(e)],
            _ => seq![],
        },
        EditMode::AdjustExtend(e) => match action {
            ActionEvent::AdjustExtend | ActionEvent::Cancel => seq![
                ControlEffect::Cursor(CursorGrab::Released),
                ControlEffect::Undo(e),
            ],
            ActionEvent::Confirm => seq![ControlEffect::Cursor(CursorGrab::Released)],
            _ => seq![],
        },
        EditMode::AdjustAxis(e, axis) => match action {
            ActionEvent::AxisChange(new_axis) => if new_axis == axis {
                seq![]
            } else {
                seq![ControlEffect::Cache(e)]
            },
            ActionEvent::Cancel => seq![
                ControlEffect::Cursor(CursorGrab::Released),
                ControlEffect::Undo(e),
            ],
            ActionEvent::Confirm => seq![ControlEffect::Cursor(CursorGrab::Released)],
            _ => seq![],
        },
        EditMode::AdjustRotate(e) => match action {
            ActionEvent::AdjustRotate | ActionEvent::Cancel => seq![ControlEffect::Undo(e)],
            ActionEvent::AxisChange(_) => seq![ControlEffect::Cache(e)],
            _ => seq![],
        },
        EditMode::AdjustRotateAxis(e, axis) => match action {
            ActionEvent::AxisChange(new_axis) => if new_axis == axis {
                seq![]
            } else {
                seq![ControlEffect::Cache(e)]
            },
            ActionEvent::Cancel => seq![ControlEffect::Undo(e)],
            _ => seq![],
        },
    };
    match action {
        ActionEvent::Save => local.push(ControlEffect::Save),
        ActionEvent::Delete => local.push(ControlEffect::Delete),
        _ => local,
    }
}

/// The mode after a sequence of actions.
pub open spec fn run_modes(mode: EditMode, sel: EntitySelected, actions: Seq<ActionEvent>) -> EditMode
    decreases actions.len(),
{
    if actions.len() == 0 {
        mode
    } else {
        next_mode(run_modes(mode, sel, actions.drop_last()), sel, actions.last())
    }
}

/// The work handed to the host over a sequence of actions, in order.
pub open spec fn run_effects(mode: EditMode, sel: EntitySelected, actions: Seq<ActionEvent>) -> Seq<
    ControlEffect,
>
    decreases actions.len(),
{
    if actions.len() == 0 {
        seq![]
    } else {
        run_effects(mode, sel, actions.drop_last()) + step_effects(
            run_modes(mode, sel, actions.drop_last()),
            sel,
            actions.last(),
        )
    }
}

/// One action: the next mode and the work for the host.
pub fn editor_step(mode: EditMode, selected: &EntitySelected, action: ActionEvent) -> (r: (
    EditMode,
    Vec<ControlEffect>,
))
    ensures
        r.0 == next_mode(mode, *selected, action),
        r.1@ == step_effects(mode, *selected, action),
{
    let mut fx: Vec<ControlEffect> = Vec::new();
    let next = match mode {
        EditMode::Default => match selected.0 {
            Some(SelectableEntity::Joint(joint)) => match action {
                ActionEvent::JointAdd => EditMode::JointAdd(joint),
                ActionEvent::JointLink => EditMode::JointLink(joint),
                ActionEvent::AdjustExtend => {
                    fx.push(ControlEffect::Cursor(CursorGrab::Confined));
                    fx.push(ControlEffect::Cache(joint));
                    EditMode::AdjustExtend(joint)
                },
                ActionEvent::AdjustGrab => {
                    fx.push(ControlEffect::Cache(joint));
                    EditMode::AdjustGrab(joint)
                },
                ActionEvent::AdjustRotate => {
                    fx.push(ControlEffect::Cache(joint));
                    EditMode::AdjustRotate(joint)
                },
                _ => mode,
            },
            Some(SelectableEntity::Connector(connector)) => match action {
                ActionEvent::MuscleAdd => {
                    fx.push(ControlEffect::ProvisionalMuscle(connector));
                    EditMode::MuscleAdd(connector)
                },
                _ => mode,
            },
            _ => mode,
        },
        EditMode::JointAdd(e) => match action {
            ActionEvent::JointAdd | ActionEvent::Cancel => EditMode::Default,
            ActionEvent::Confirm => {
                if selected.contains(e) {
                    fx.push(ControlEffect::JointAdd);
                    mode
                } else {
                    EditMode::Default
                }
            },
            _ => mode,
        },
        EditMode::JointLink(e) => match action {
            ActionEvent::Cancel => EditMode::Default,
            ActionEvent::Confirm => {
                if selected.is_joint() && !selected.contains(e) {
                    fx.push(ControlEffect::JointLink);
                    mode
                } else {
                    EditMode::Default
                }
            },
            _ => mode,
        },
        EditMode::MuscleAdd(e) => match action {
            ActionEvent::Cancel | ActionEvent::MuscleAdd => {
                fx.push(ControlEffect::DropProvisional);
                EditMode::Default
            },
            ActionEvent::Confirm => {
                if !selected.is_connector() {
                    fx.push(ControlEffect::DropProvisional);
                    EditMode::Default
                } else if selected.contains(e) {
                    mode
                } else {
                    fx.push(ControlEffect::MuscleAdd);
                    mode
                }
            },
            _ => mode,
        },
        EditMode::AdjustGrab(e) => match action {
            ActionEvent::AdjustGrab | ActionEvent::Cancel => {
                fx.push(ControlEffect::Undo(e));
                EditMode::Default
            },
            ActionEvent::Confirm => EditMode::Default,
            ActionEvent::AxisChange(axis) => {
                fx.push(ControlEffect::Cache(e));
                EditMode::AdjustAxis(e, axis)
            },
            _ => mode,
        },
        EditMode::AdjustExtend(e) => match action {
            ActionEvent::AdjustExtend | ActionEvent::Cancel => {
                fx.push(ControlEffect::Cursor(CursorGrab::Released));
                fx.push(ControlEffect::Undo(e));
                EditMode::Default
            },
            ActionEvent::Confirm => {
                fx.push(ControlEffect::Cursor(CursorGrab::Released));
                EditMode::Default
            },
            _ => mode,
        },
        EditMode::AdjustAxis(e, axis) => match action {
            ActionEvent::AxisChange(new_axis) => {
                if new_axis == axis {
                    EditMode::AdjustGrab(e)
                } else {
                    fx.push(ControlEffect::Cache(e));
                    EditMode::AdjustAxis(e, new_axis)
                }
            },
            ActionEvent::Cancel => {
                fx.push(ControlEffect::Cursor(CursorGrab::Released));
                fx.push(ControlEffect::Undo(e));
                EditMode::Default
            },
            ActionEvent::Confirm => {
                fx.push(ControlEffect::Cursor(CursorGrab::Released));
                EditMode::Default
            },
            _ => mode,
        },
        EditMode::AdjustRotate(e) => match action {
            ActionEvent::AdjustRotate | ActionEvent::Cancel => {
                fx.push(ControlEffect::Undo(e));
                EditMode::Default
            },
            ActionEvent::Confirm => EditMode::Default,
            ActionEvent::AxisChange(axis) => {
                fx.push(ControlEffect::Cache(e));
                EditMode::AdjustRotateAxis(e, axis)
            },
            _ => mode,
        },
        EditMode::AdjustRotateAxis(e, axis) => match action {
            ActionEvent::AxisChange(new_axis) => {
                if new_axis == axis {
                    EditMode::AdjustRotate(e)
                } else {
                    fx.push(ControlEffect::Cache(e));
                    EditMode::AdjustRotateAxis(e, new_axis)
                }
            },
            ActionEvent::Cancel => {
                fx.push(ControlEffect::Undo(e));
                EditMode::Default
            },
            ActionEvent::Confirm => EditMode::Default,
            _ => mode,
        },
    };
    match action {
        ActionEvent::Save => fx.push(ControlEffect::Save),
        ActionEvent::Delete => fx.push(ControlEffect::Delete),
        _ => {},
    }
    proof {
        assert(fx@ =~= step_effects(mode, *selected, action));
    }
    (next, fx)
}

/// The actions of one frame, in order: updates the mode and returns the work for the
/// host, in order.
pub fn editor_control(mode: &mut EditMode, selected: &EntitySelected, actions: &Vec<ActionEvent>) -> (r:
    Vec<ControlEffect>)
    ensures
        *final(mode) == run_modes(*old(mode), *selected, actions@),
        r@ == run_effects(*old(mode), *selected, actions@),
{
    let mut fx: Vec<ControlEffect> = Vec::new();
    let mut i: usize = 0;
    while i < actions.len()
        invariant
            i <= actions@.len(),
            *mode == run_modes(*old(mode), *selected, actions@.subrange(0, i as int)),
            fx@ == run_effects(*old(mode), *selected, actions@.subrange(0, i as int)),
        decreases actions@.len() - i,
    {
        let (next, step) = editor_step(*mode, selected, actions[i]);
        proof {
            let pre = actions@.subrange(0, i as int);
            let post = actions@.subrange(0, i + 1);
            assert(post.drop_last() =~= pre);
            assert(post.last() == actions@[i as int]);
        }
        *mode = next;
        let mut j: usize = 0;
        let ghost fx0 = fx@;
        while j < step.len()
            invariant
                j <= step@.len(),
                fx@ == fx0 + step@.subrange(0, j as int),
            decreases step@.len() - j,
        {
            fx.push(step[j]);
            j = j + 1;
            proof {
                assert(fx@ =~= fx0 + step@.subrange(0, j as int));
            }
        }
        proof {
            assert(step@.subrange(0, j as int) =~= step@);
        }
        i = i + 1;
    }
    proof {
        assert(actions@.subrange(0, i as int) =~= actions@);
    }
    fx
}

/// Cancel always ends an edit: from any mode it leads to the default mode, and from an
/// adjust mode it puts the joint back where it was last remembered.
pub proof fn lemma_cancel_restores(mode: EditMode, sel: EntitySelected)
    ensures
        next_mode(mode, sel, ActionEvent::Cancel) == EditMode::Default,
        mode matches EditMode::AdjustGrab(e) ==> step_effects(mode, sel, ActionEvent::Cancel).contains(
            ControlEffect::Undo(e),
        ),
        mode matches EditMode::AdjustExtend(e) ==> step_effects(mode, sel, ActionEvent::Cancel).contains(
            ControlEffect::Undo(e),
        ),
        mode matches EditMode::AdjustAxis(e, _) ==> step_effects(mode, sel, ActionEvent::Cancel).contains(
            ControlEffect::Undo(e),
        ),
        mode matches EditMode::AdjustRotate(e) ==> step_effects(mode, sel, ActionEvent::Cancel).contains(
            ControlEffect::Undo(e),
        ),
        mode matches EditMode::AdjustRotateAxis(e, _) ==> step_effects(
            mode,
            sel,
            ActionEvent::Cancel,
        ).contains(ControlEffect::Undo(e)),
{
    let fx = step_effects(mode, sel, ActionEvent::Cancel);
    match mode {
        EditMode::AdjustGrab(e) => {
            assert(fx[0] == ControlEffect::Undo(e));
        },
        EditMode::AdjustExtend(e) => {
            assert(fx[1] == ControlEffect::Undo(e));
        },
        EditMode::AdjustAxis(e, _) => {
            assert(fx[1] == ControlEffect::Undo(e));
        },
        EditMode::AdjustRotate(e) => {
            assert(fx[0] == ControlEffect::Undo(e));
        },
        EditMode::AdjustRotateAxis(e, _) => {
            assert(fx[0] == ControlEffect::Undo(e));
        },
        _ => {},
    }
}

} // verus!
