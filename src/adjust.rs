//! Which manipulation an adjust mode asks for, on which joints.
use vstd::prelude::*;

use crate::controls::{EditMode, UnitAxis};
use crate::structure::Structure;

verus! {

/// The manipulation to run this frame.
#[derive(Clone, Copy, Debug, PartialEq, Eq, Structural)]
pub enum AdjustPlan {
    /// Nothing to move.
    Idle,
    /// The joint has no parent to work from: cancel, then grab it instead.
    FallBackToGrab,
    /// Slide `joint` along the arm from `parent`.
    Extend { joint: u32, parent: u32 },
    /// Move `joint` under the cursor about `center` (its parent, or itself for a root);
    /// with `rotate`, at a fixed distance from `center`.
    Sphere { joint: u32, center: u32, rotate: bool },
    /// Slide `joint` along a world axis.
    Axis { joint: u32, axis: UnitAxis },
    /// Turn `joint` about an axis through `parent`.
    RotateAxis { joint: u32, parent: u32, axis: UnitAxis },
}

/// The plan for `mode`, where `joint` is the node of the joint that the mode works on
/// (`None` when that entity has no node).
pub open spec fn plan_of(s: Structure, mode: EditMode, joint: Option<u32>) -> AdjustPlan {
    let parent = if joint is Some && s.nodes().contains_key(joint.unwrap()) {
        s.nodes()[joint.unwrap()].parent
    } else {
        None
    };
    match mode {
        EditMode::AdjustExtend(_) => if joint is None {
            AdjustPlan::Idle
        } else if parent is None {
            AdjustPlan::FallBackToGrab
        } else {
            AdjustPlan::Extend { joint: joint.unwrap(), parent: parent.unwrap() }
        },
        EditMode::AdjustGrab(_) | EditMode::AdjustRotate(_) => if joint is None {
            AdjustPlan::Idle
        } else {
            AdjustPlan::Sphere {
                joint: joint.unwrap(),
                center: if parent is Some {
                    parent.unwrap()
                } else {
                    joint.unwrap()
                },
                rotate: mode is AdjustRotate,
            }
        },
        EditMode::AdjustAxis(_, axis) => if joint is None {
            AdjustPlan::Idle
        } else {
            AdjustPlan::Axis { joint: joint.unwrap(), axis }
        },
        EditMode::AdjustRotateAxis(_, axis) => if joint is None {
            AdjustPlan::Idle
        } else if parent is None {
            AdjustPlan::FallBackToGrab
        } else {
            AdjustPlan::RotateAxis { joint: joint.unwrap(), parent: parent.unwrap(), axis }
        },
        _ => AdjustPlan::Idle,
    }
}

impl Structure {
    /// The manipulation that `mode` asks for this frame, on the joint with node `joint`.
    pub fn adjust_plan(&self, mode: EditMode, joint: Option<u32>) -> (r: AdjustPlan)
        ensures
            r == plan_of(*self, mode, joint),
    {
        let parent = match joint {
            Some(n) => self.node_parent(n),
            None => None,
        };
        match joint {
            None => AdjustPlan::Idle,
            Some(n) => match mode {
                EditMode::AdjustExtend(_) => match parent {
                    Some(p) => AdjustPlan::Extend { joint: n, parent: p },
                    None => AdjustPlan::FallBackToGrab,
                },
                EditMode::AdjustGrab(_) => AdjustPlan::Sphere {
                    joint: n,
                    center: match parent {
                        Some(p) => p,
                        None => n,
                    },
                    rotate: false,
                },
                EditMode::AdjustRotate(_) => AdjustPlan::Sphere {
                    joint: n,
                    center: match parent {
                        Some(p) => p,
                        None => n,
                    },
                    rotate: true,
                },
                EditMode::AdjustAxis(_, axis) => AdjustPlan::Axis { joint: n, axis },
                EditMode::AdjustRotateAxis(_, axis) => match parent {
                    Some(p) => AdjustPlan::RotateAxis { joint: n, parent: p, axis },
                    None => AdjustPlan::FallBackToGrab,
                },
                _ => AdjustPlan::Idle,
            },
        }
    }
}

} // verus!
