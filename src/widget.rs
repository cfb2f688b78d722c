//! Isolated builders and the capability shared by every widget.
use vstd::prelude::*;
use crate::arena::{attached, attached_all, adopted_all, EntityData, empty_view, live, Arena, Component, EntityView, WidgetError};
use crate::components::{Entity, Plain, Style};
use crate::scene::Scene;

verus! {

/// Assembles widgets in an arena of its own, apart from any live graph.
/// Each builder carries an identifier; widgets remember the identifier of
/// the builder that made them, so that widgets of different builders are
/// never composed together. That check holds only where every builder in use
/// is given an identifier of its own: two builders with the same identifier
/// are taken for one.
pub struct WidgetBuilder {
    pub id: u64,
    pub default_font: u64,
    pub world: Arena,
}

/// A composable element: the builder it belongs to and its root entity.
pub trait Widget {
    spec fn builder_spec(&self) -> u64;

    spec fn root_spec(&self) -> Entity;

    fn builder_id(&self) -> (r: u64)
        ensures
            r == self.builder_spec(),
    ;

    fn root_id(&self) -> (r: Entity)
        ensures
            r == self.root_spec(),
    ;
}

impl WidgetBuilder {
    /// A builder with an empty arena. `id` must differ from the identifier
    /// of every other builder whose widgets could meet this one's.
    pub fn new(id: u64, default_font: u64) -> (r: WidgetBuilder)
        ensures
            r.id == id,
            r.default_font == default_font,
            r.world@ == Seq::<Option<EntityView>>::empty(),
    {
        WidgetBuilder { id, default_font, world: Arena::new() }
    }

    pub fn world(&self) -> (r: &Arena)
        ensures
            r == &self.world,
    {
        &self.world
    }

    /// Adds an entity with nothing attached.
    pub fn spawn(&mut self) -> (r: Entity)
        ensures
            final(self).id == old(self).id,
            final(self).default_font == old(self).default_font,
            final(self).world@ == old(self).world@.push(Some(empty_view())),
            r.index == old(self).world@.len(),
    {
        self.world.spawn()
    }

    /// Attaches `c` to the root of `w`.
    pub fn insert<W: Widget>(&mut self, w: &W, c: Component) -> (r: Result<(), WidgetError>)
        ensures
            final(self).id == old(self).id,
            final(self).default_font == old(self).default_font,
            (r == Err::<(), WidgetError>(WidgetError::CrossArenaComposition)) == (w.builder_spec()
                != old(self).id),
            (r == Err::<(), WidgetError>(WidgetError::MissingEntity(w.root_spec()))) == (
            w.builder_spec() == old(self).id && !live(old(self).world@, w.root_spec())),
            r.is_ok() == (w.builder_spec() == old(self).id && live(old(self).world@, w.root_spec())),
            r.is_err() ==> final(self).world@ == old(self).world@,
            r.is_ok() ==> final(self).world@ == old(self).world@.update(
                w.root_spec().index as int,
                Some(attached(old(self).world@[w.root_spec().index as int].unwrap(), c)),
            ),
    {
        if w.builder_id() != self.id {
            return Err(WidgetError::CrossArenaComposition);
        }
        self.world.insert(w.root_id(), c)
    }

    /// Attaches each of `cs`, in order, to the root of `w`.
    pub fn insert_bundle<W: Widget>(&mut self, w: &W, cs: Vec<Component>) -> (r: Result<(), WidgetError>)
        ensures
            final(self).id == old(self).id,
            final(self).default_font == old(self).default_font,
            (r == Err::<(), WidgetError>(WidgetError::CrossArenaComposition)) == (w.builder_spec()
                != old(self).id),
            r.is_ok() == (w.builder_spec() == old(self).id && live(old(self).world@, w.root_spec())),
            r.is_err() ==> final(self).world@ == old(self).world@,
            r.is_ok() ==> final(self).world@ == old(self).world@.update(
                w.root_spec().index as int,
                Some(attached_all(old(self).world@[w.root_spec().index as int].unwrap(), cs@)),
            ),
    {
        if w.builder_id() != self.id {
            return Err(WidgetError::CrossArenaComposition);
        }
        self.world.insert_bundle(w.root_id(), cs)
    }

    /// The root entity of `w`, for reading its components.
    pub fn get<W: Widget>(&self, w: &W) -> (r: Result<&EntityData, WidgetError>)
        ensures
            (r == Err::<&EntityData, WidgetError>(WidgetError::CrossArenaComposition)) == (
            w.builder_spec() != self.id),
            r.is_ok() == (w.builder_spec() == self.id && live(self.world@, w.root_spec())),
            r.is_ok() ==> r.unwrap()@ == self.world@[w.root_spec().index as int].unwrap(),
    {
        if w.builder_id() != self.id {
            return Err(WidgetError::CrossArenaComposition);
        }
        let e = w.root_id();
        match self.world.get(e) {
            Some(d) => Ok(d),
            None => Err(WidgetError::MissingEntity(e)),
        }
    }

    /// Appends `children`, in order, to the children of the root of `w`.
    pub fn push_children<W: Widget>(&mut self, w: &W, children: &Vec<Entity>) -> (r: Result<
        (),
        WidgetError,
    >)
        ensures
            final(self).id == old(self).id,
            final(self).default_font == old(self).default_font,
            (r == Err::<(), WidgetError>(WidgetError::CrossArenaComposition)) == (w.builder_spec()
                != old(self).id),
            r.is_ok() == (w.builder_spec() == old(self).id && live(old(self).world@, w.root_spec())
                && forall|k: int|
                0 <= k < children@.len() ==> live(old(self).world@, #[trigger] children@[k])),
            r.is_err() ==> final(self).world@ == old(self).world@,
            r.is_ok() ==> final(self).world@ == adopted_all(
                old(self).world@,
                w.root_spec(),
                children@,
            ),
    {
        if w.builder_id() != self.id {
            return Err(WidgetError::CrossArenaComposition);
        }
        self.world.push_children(w.root_id(), children)
    }

    /// Adjusts the layout of the root of `w` through `f`. Where the root has
    /// no layout this is no error: nothing changes and `Ok(false)` comes back.
    pub fn mutate_style<W: Widget, F: Fn(Style) -> Style>(&mut self, w: &W, f: F) -> (r: Result<
        bool,
        WidgetError,
    >)
        requires
            forall|s: Style| f.requires((s,)),
        ensures
            final(self).id == old(self).id,
            final(self).default_font == old(self).default_font,
            (r == Err::<bool, WidgetError>(WidgetError::CrossArenaComposition)) == (w.builder_spec()
                != old(self).id),
            r.is_ok() == (w.builder_spec() == old(self).id && live(old(self).world@, w.root_spec())),
            r.is_err() ==> final(self).world@ == old(self).world@,
            r.is_ok() ==> r.unwrap() == old(self).world@[w.root_spec().index as int].unwrap().plain.style.is_some(),
            r == Ok::<bool, WidgetError>(false) ==> final(self).world@ == old(self).world@,
            r == Ok::<bool, WidgetError>(true) ==> {
                let v = old(self).world@[w.root_spec().index as int].unwrap();
                exists|n: Style|
                    f.ensures((v.plain.style.unwrap(),), n) && final(self).world@ == old(self).world@.update(
                        w.root_spec().index as int,
                        Some(EntityView { plain: Plain { style: Some(n), ..v.plain }, ..v }),
                    )
            },
    {
        if w.builder_id() != self.id {
            return Err(WidgetError::CrossArenaComposition);
        }
        let e = w.root_id();
        if !self.world.contains(e) {
            return Err(WidgetError::MissingEntity(e));
        }
        let ghost a = self.world@;
        let slot = self.world.take_slot(e.index);
        match slot {
            Some(mut d) => {
                let ghost v = d@;
                match d.plain.style {
                    Some(st) => {
                        let n = f(st);
                        d.plain.style = Some(n);
                        self.world.put_slot(e.index, Some(d));
                        proof {
                            assert(self.world@ =~= a.update(
                                e.index as int,
                                Some(EntityView { plain: Plain { style: Some(n), ..v.plain }, ..v }),
                            ));
                        }
                        Ok(true)
                    },
                    None => {
                        self.world.put_slot(e.index, Some(d));
                        proof {
                            assert(self.world@ =~= a);
                        }
                        Ok(false)
                    },
                }
            },
            None => Err(WidgetError::MissingEntity(e)),
        }
    }

    /// Ends building: the arena becomes a template.
    pub fn into_template(self) -> (r: Scene)
        ensures
            r.world@ == self.world@,
    {
        Scene { world: self.world }
    }
}

/// Records the root of `w` in `slot`.
pub fn set_root_id<W: Widget>(w: &W, slot: &mut Option<Entity>)
    ensures
        *final(slot) == Some(w.root_spec()),
{
    *slot = Some(w.root_id());
}

} // verus!
