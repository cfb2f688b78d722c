//! A widget that is a copy of a template, grafted into the builder's arena.
use vstd::prelude::*;
use crate::components::Entity;
use crate::scene::{grafted, has_unique_root, self_contained, spawn_scene, GraftError, Scene};
use crate::widget::{Widget, WidgetBuilder};
use crate::widgets::base::Base;

verus! {

/// The root of a grafted copy of a template.
#[derive(Clone, Copy, PartialEq, Eq, Structural, Debug)]
pub struct FromScene {
    pub base: Base,
}

impl Widget for FromScene {
    open spec fn builder_spec(&self) -> u64 {
        self.base.builder
    }

    open spec fn root_spec(&self) -> Entity {
        self.base.root
    }

    fn builder_id(&self) -> (r: u64) {
        self.base.builder
    }

    fn root_id(&self) -> (r: Entity) {
        self.base.root
    }
}

impl FromScene {
    /// Grafts a copy of `scene` into the builder's arena.
    pub fn new(wb: &mut WidgetBuilder, scene: &Scene) -> (r: Result<FromScene, GraftError>)
        requires
            old(wb).world@.len() + scene.world@.len() <= usize::MAX,
        ensures
            final(wb).id == old(wb).id,
            final(wb).default_font == old(wb).default_font,
            (r == Err::<FromScene, GraftError>(GraftError::DanglingReference)) == !self_contained(
                scene.world@,
            ),
            (r == Err::<FromScene, GraftError>(GraftError::EmptyTemplate)) == (self_contained(
                scene.world@,
            ) && !has_unique_root(scene.world@)),
            r.is_err() ==> final(wb).world@ == old(wb).world@,
            r.is_ok() ==> r.unwrap().base.builder == old(wb).id && grafted(
                old(wb).world@,
                scene.world@,
                final(wb).world@,
                r.unwrap().base.root,
            ),
    {
        match spawn_scene(&mut wb.world, scene) {
            Ok(root) => Ok(FromScene { base: Base { builder: wb.id, root } }),
            Err(e) => Err(e),
        }
    }
}

} // verus!
