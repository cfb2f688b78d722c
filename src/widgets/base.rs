//! The minimal widget: one entity.
use vstd::prelude::*;
use crate::arena::{empty_view, EntityData};
use crate::components::Entity;
use crate::widget::{Widget, WidgetBuilder};

verus! {

/// A widget made of a single entity.
#[derive(Clone, Copy, PartialEq, Eq, Structural, Debug)]
pub struct Base {
    pub builder: u64,
    pub root: Entity,
}

impl Widget for Base {
    open spec fn builder_spec(&self) -> u64 {
        self.builder
    }

    open spec fn root_spec(&self) -> Entity {
        self.root
    }

    fn builder_id(&self) -> (r: u64) {
        self.builder
    }

    fn root_id(&self) -> (r: Entity) {
        self.root
    }
}

impl Base {
    /// Adds a bare entity to the builder's arena.
    pub fn spawn(wb: &mut WidgetBuilder) -> (r: Base)
        ensures
            final(wb).id == old(wb).id,
            final(wb).default_font == old(wb).default_font,
            final(wb).world@ == old(wb).world@.push(Some(empty_view())),
            r.builder == old(wb).id,
            r.root.index == old(wb).world@.len(),
    {
        Base::spawn_with(wb, EntityData::empty())
    }

    /// Adds an entity holding `d` to the builder's arena.
    pub fn spawn_with(wb: &mut WidgetBuilder, d: EntityData) -> (r: Base)
        ensures
            final(wb).id == old(wb).id,
            final(wb).default_font == old(wb).default_font,
            final(wb).world@ == old(wb).world@.push(Some(d@)),
            r.builder == old(wb).id,
            r.root.index == old(wb).world@.len(),
    {
        let root = Entity { index: wb.world.len() };
        wb.world.push_slot(Some(d));
        Base { builder: wb.id, root }
    }

    /// The handle of any widget.
    pub fn of<W: Widget>(w: &W) -> (r: Base)
        ensures
            r.builder == w.builder_spec(),
            r.root == w.root_spec(),
    {
        Base { builder: w.builder_id(), root: w.root_id() }
    }
}

} // verus!
