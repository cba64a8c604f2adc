//! The current selection and how a click changes it.
use vstd::prelude::*;

use crate::EntityId;

verus! {

/// What kind of thing an entity is, with its handle.
#[derive(Clone, Copy, Debug, PartialEq, Eq, Structural)]
pub enum SelectableEntity {
    Joint(EntityId),
    Connector(EntityId),
    Muscle(EntityId),
}

impl SelectableEntity {
    /// The handle, whatever the kind.
    pub open spec fn handle(self) -> EntityId {
        match self {
            SelectableEntity::Joint(e) => e,
            SelectableEntity::Connector(e) => e,
            SelectableEntity::Muscle(e) => e,
        }
    }
}

/// The selection state of one entity.
#[derive(Clone, Copy, Debug)]
pub struct Selectable {
    pub entity_type: SelectableEntity,
    pub selected: bool,
}

impl Selectable {
    /// An entity of the given kind, not selected.
    pub fn with_type(entity_type: SelectableEntity) -> (r: Selectable)
        ensures
            r.entity_type == entity_type,
            !r.selected,
    {
        Selectable { entity_type, selected: false }
    }
}

/// The entity that is selected, if any.
#[derive(Clone, Copy, Debug)]
pub struct EntitySelected(pub Option<SelectableEntity>);

impl Default for EntitySelected {
    fn default() -> (r: EntitySelected)
        ensures
            r.0.is_none(),
    {
        EntitySelected(None)
    }
}

impl EntitySelected {
    /// Nothing selected.
    pub fn new() -> (r: EntitySelected)
        ensures
            r.0.is_none(),
    {
        EntitySelected(None)
    }

    pub fn is_some(&self) -> (r: bool)
        ensures
            r == self.0.is_some(),
    {
        self.0.is_some()
    }

    pub fn is_none(&self) -> (r: bool)
        ensures
            r == self.0.is_none(),
    {
        self.0.is_none()
    }

    pub fn set(&mut self, entity: Option<SelectableEntity>)
        ensures
            final(self).0 == entity,
    {
        self.0 = entity;
    }

    /// Whether `entity` is the one selected.
    pub fn contains(&self, entity: EntityId) -> (r: bool)
        ensures
            r == (self.0.is_some() && self.0.unwrap().handle() == entity),
    {
        match self.0 {
            Some(SelectableEntity::Joint(v)) => v == entity,
            Some(SelectableEntity::Connector(v)) => v == entity,
            Some(SelectableEntity::Muscle(v)) => v == entity,
            None => false,
        }
    }

    /// The entity selected, if any.
    pub fn get(&self) -> (r: Option<EntityId>)
        ensures
            r == (match self.0 {
                Some(s) => Some(s.handle()),
                None => None,
            }),
    {
        match self.0 {
            Some(SelectableEntity::Joint(v)) => Some(v),
            Some(SelectableEntity::Connector(v)) => Some(v),
            Some(SelectableEntity::Muscle(v)) => Some(v),
            None => None,
        }
    }

    pub fn is_joint(&self) -> (r: bool)
        ensures
            r == (self.0 matches Some(SelectableEntity::Joint(_))),
    {
        matches!(self.0, Some(SelectableEntity::Joint(_)))
    }

    pub fn is_connector(&self) -> (r: bool)
        ensures
            r == (self.0 matches Some(SelectableEntity::Connector(_))),
    {
        matches!(self.0, Some(SelectableEntity::Connector(_)))
    }

    pub fn is_muscle(&self) -> (r: bool)
        ensures
            r == (self.0 matches Some(SelectableEntity::Muscle(_))),
    {
        matches!(self.0, Some(SelectableEntity::Muscle(_)))
    }

    /// A left click. `hit` is the entity under the cursor, with its kind when it is
    /// selectable; `blocked` says that a selection was just made elsewhere this frame.
    /// Selects a selectable entity that was hit (unless it is already selected, or the
    /// click is blocked), and clears the selection when the click hit nothing selectable.
    /// Returns whether the selection changed.
    pub fn click(&mut self, hit: Option<(EntityId, Option<SelectableEntity>)>, blocked: bool) -> (r:
        bool)
        ensures
            ({
                let keep = match hit {
                    Some((target, _)) => (old(self).0.is_some() && old(self).0.unwrap().handle()
                        == target) || blocked,
                    None => false,
                };
                if keep {
                    !r && final(self).0 == old(self).0
                } else if hit is Some && hit.unwrap().1 is Some {
                    r && final(self).0 == hit.unwrap().1
                } else {
                    r == old(self).0.is_some() && final(self).0.is_none()
                }
            }),
    {
        if let Some((target, kind)) = hit {
            if self.contains(target) || blocked {
                return false;
            }
            if let Some(k) = kind {
                self.0 = Some(k);
                return true;
            }
        }
        if self.is_some() {
            self.0 = None;
            true
        } else {
            false
        }
    }
}

} // verus!
