//! A clickable wrapper around one child widget.
use vstd::prelude::*;
use crate::arena::{
    adopted_all, attached, empty_view, lemma_adopted_all_live, live, Component, EntityData,
    EntityView, WidgetError,
};
use crate::components::{
    EventButton, ButtonMaterial, Entity, FlexDirection, FocusPolicy, Focusable, Interaction, Plain, Style,
};
use crate::widget::{Widget, WidgetBuilder};
use crate::widgets::base::Base;

verus! {

/// The node entity of a new button.
pub open spec fn button_view() -> EntityView {
    EntityView {
        plain: Plain {
            style: Some(Style { flex_direction: FlexDirection::Row, min_height: 0, absolute: false }),
            button_material: Some(
                ButtonMaterial { material: 0, material_hovered: 0, material_clicked: 0 },
            ),
            focusable: Some(Focusable::Unfocused),
            interaction: Some(Interaction::Idle),
            focus_policy: Some(FocusPolicy::Block),
            ..Plain::spec_empty()
        },
        ..empty_view()
    }
}

/// `a` with `c` attached to the live entity `e`.
pub open spec fn attached_at(a: Seq<Option<EntityView>>, e: Entity, c: Component) -> Seq<
    Option<EntityView>,
> {
    a.update(e.index as int, Some(attached(a[e.index as int].unwrap(), c)))
}

/// The root `e` is live and its first child is live.
pub open spec fn has_live_child(a: Seq<Option<EntityView>>, e: Entity) -> bool {
    &&& live(a, e)
    &&& a[e.index as int].unwrap().children.len() > 0
    &&& live(a, a[e.index as int].unwrap().children[0])
}

/// A widget that reacts to clicks; its only child lets clicks through.
#[derive(Clone, Copy, PartialEq, Eq, Structural, Debug)]
pub struct Button {
    pub base: Base,
}

impl Widget for Button {
    open spec fn builder_spec(&self) -> u64 {
        self.base.builder
    }

    open spec fn root_spec(&self) -> Entity {
        self.base.root
    }

    fn builder_id(&self) -> (r: u64) {
        self.base.builder
    }

    fn root_id(&self) -> (r: Entity) {
        self.base.root
    }
}

impl Button {
    /// A button around `child`, which then passes clicks to the button.
    pub fn new<W: Widget>(wb: &mut WidgetBuilder, child: &W) -> (r: Result<Button, WidgetError>)
        ensures
            final(wb).id == old(wb).id,
            final(wb).default_font == old(wb).default_font,
            (r == Err::<Button, WidgetError>(WidgetError::CrossArenaComposition)) == (
            child.builder_spec() != old(wb).id),
            r.is_ok() == (child.builder_spec() == old(wb).id && live(
                old(wb).world@,
                child.root_spec(),
            )),
            r.is_err() ==> final(wb).world@ == old(wb).world@,
            r.is_ok() ==> r.unwrap().base.builder == old(wb).id && r.unwrap().base.root.index
                == old(wb).world@.len() && final(wb).world@ == attached_at(
                adopted_all(
                    old(wb).world@.push(Some(button_view())),
                    r.unwrap().base.root,
                    seq![child.root_spec()],
                ),
                child.root_spec(),
                Component::FocusPolicy(FocusPolicy::Pass),
            ),
    {
        if child.builder_id() != wb.id {
            return Err(WidgetError::CrossArenaComposition);
        }
        let c = child.root_id();
        if !wb.world.contains(c) {
            return Err(WidgetError::MissingEntity(c));
        }
        let mut d = EntityData::empty();
        d.plain.style = Some(
            Style { flex_direction: FlexDirection::Row, min_height: 0, absolute: false },
        );
        d.plain.button_material = Some(
            ButtonMaterial { material: 0, material_hovered: 0, material_clicked: 0 },
        );
        d.plain.focusable = Some(Focusable::default());
        d.plain.interaction = Some(Interaction::Idle);
        d.plain.focus_policy = Some(FocusPolicy::Block);
        proof {
            assert(d@ == button_view());
        }
        let base = Base::spawn_with(wb, d);
        let ghost a1 = wb.world@;
        let mut kids: Vec<Entity> = Vec::new();
        kids.push(c);
        proof {
            assert(kids@ =~= seq![c]);
            assert(live(wb.world@, kids@[0]));
            lemma_adopted_all_live(a1, base.root, kids@);
            assert(live(wb.world@, c));
        }
        match wb.push_children(&base, &kids) {
            Ok(()) => {},
            Err(e) => {
                return Err(e);
            },
        }
        match wb.world.insert(c, Component::FocusPolicy(FocusPolicy::Pass)) {
            Ok(()) => {},
            Err(e) => {
                return Err(e);
            },
        }
        Ok(Button { base })
    }

    /// Attaches `c` to the button's child (the first child of its root).
    /// Fails, changing nothing, where the button belongs to another builder,
    /// where its root is not live or has no child, or where that child is not live.
    pub fn with_child(&self, wb: &mut WidgetBuilder, c: Component) -> (r: Result<(), WidgetError>)
        ensures
            final(wb).id == old(wb).id,
            final(wb).default_font == old(wb).default_font,
            (r == Err::<(), WidgetError>(WidgetError::CrossArenaComposition)) == (self.base.builder
                != old(wb).id),
            r.is_ok() == (self.base.builder == old(wb).id && has_live_child(
                old(wb).world@,
                self.base.root,
            )),
            self.base.builder == old(wb).id && !(live(old(wb).world@, self.base.root)
                && old(wb).world@[self.base.root.index as int].unwrap().children.len() > 0) ==> r
                == Err::<(), WidgetError>(WidgetError::MissingEntity(self.base.root)),
            self.base.builder == old(wb).id && live(old(wb).world@, self.base.root)
                && old(wb).world@[self.base.root.index as int].unwrap().children.len() > 0 && !live(
                old(wb).world@,
                old(wb).world@[self.base.root.index as int].unwrap().children[0],
            ) ==> r == Err::<(), WidgetError>(
                WidgetError::MissingEntity(
                    old(wb).world@[self.base.root.index as int].unwrap().children[0],
                ),
            ),
            r.is_err() ==> final(wb).world@ == old(wb).world@,
            r.is_ok() ==> final(wb).world@ == attached_at(
                old(wb).world@,
                old(wb).world@[self.base.root.index as int].unwrap().children[0],
                c,
            ),
    {
        if self.base.builder != wb.id {
            return Err(WidgetError::CrossArenaComposition);
        }
        let kids = wb.world.children_of(self.base.root);
        if kids.len() == 0 {
            return Err(WidgetError::MissingEntity(self.base.root));
        }
        wb.world.insert(kids[0], c)
    }
}

/// The material a button shows for an interaction state.
pub open spec fn material_for(b: ButtonMaterial, i: Interaction) -> u64 {
    match i {
        Interaction::Clicked => b.material_clicked,
        Interaction::Hovered => b.material_hovered,
        Interaction::Idle => b.material,
    }
}

/// The entity `v` after its button material has been applied.
pub open spec fn with_button_material(v: EntityView) -> EntityView {
    match (v.plain.button_material, v.plain.interaction) {
        (Some(b), Some(i)) => EntityView {
            plain: Plain { material: Some(material_for(b, i)), ..v.plain },
            ..v
        },
        _ => v,
    }
}

/// Every entity with button materials and an interaction state shows the
/// material of its state.
pub fn update_button_material(world: &mut crate::arena::Arena)
    ensures
        final(world)@.len() == old(world)@.len(),
        forall|i: int|
            0 <= i < old(world)@.len() ==> #[trigger] final(world)@[i] == match old(world)@[i] {
                Some(v) => Some(with_button_material(v)),
                None => None,
            },
{
    let n = world.len();
    let mut i: usize = 0;
    while i < n
        invariant
            i <= n,
            n == old(world)@.len(),
            world@.len() == n,
            forall|k: int|
                0 <= k < i ==> #[trigger] world@[k] == match old(world)@[k] {
                    Some(v) => Some(with_button_material(v)),
                    None => None,
                },
            forall|k: int| i <= k < n ==> #[trigger] world@[k] == old(world)@[k],
        decreases n - i,
    {
        let slot = world.take_slot(i);
        match slot {
            Some(mut d) => {
                match (d.plain.button_material, d.plain.interaction) {
                    (Some(b), Some(it)) => {
                        let m = match it {
                            Interaction::Clicked => b.material_clicked,
                            Interaction::Hovered => b.material_hovered,
                            Interaction::Idle => b.material,
                        };
                        d.plain.material = Some(m);
                    },
                    _ => {},
                }
                world.put_slot(i, Some(d));
            },
            None => {
                world.put_slot(i, None);
            },
        }
        i = i + 1;
    }
}

/// The events of the event buttons among `changed` that read clicked, in order.
pub open spec fn clicked_events(a: Seq<Option<EntityView>>, changed: Seq<Entity>) -> Seq<EventButton>
    decreases changed.len(),
{
    if changed.len() == 0 {
        seq![]
    } else {
        let prev = clicked_events(a, changed.drop_last());
        let e = changed.last();
        if live(a, e) && a[e.index as int].unwrap().plain.interaction == Some(Interaction::Clicked)
            && a[e.index as int].unwrap().event_button.is_some() {
            prev.push(a[e.index as int].unwrap().event_button.unwrap())
        } else {
            prev
        }
    }
}

/// Emits the event of each entity in `changed` (those whose interaction
/// changed this frame) that is an event button and reads clicked.
pub fn event_button(world: &crate::arena::Arena, changed: &Vec<Entity>) -> (r: Vec<EventButton>)
    ensures
        r@ == clicked_events(world@, changed@),
{
    let mut out: Vec<EventButton> = Vec::new();
    let mut i: usize = 0;
    while i < changed.len()
        invariant
            i <= changed@.len(),
            out@ == clicked_events(world@, changed@.take(i as int)),
        decreases changed@.len() - i,
    {
        proof {
            assert(changed@.take(i + 1).drop_last() =~= changed@.take(i as int));
        }
        let e = changed[i];
        if e.index < world.slots.len() {
            match &world.slots[e.index] {
                Some(d) => {
                    match (d.plain.interaction, d.event_button) {
                        (Some(Interaction::Clicked), Some(b)) => {
                            out.push(b);
                        },
                        _ => {},
                    }
                },
                None => {},
            }
        }
        i = i + 1;
    }
    proof {
        assert(changed@.take(changed@.len() as int) =~= changed@);
    }
    out
}

} // verus!
