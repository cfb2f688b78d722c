//! A container laying out an ordered set of widgets in a row or a column.
use vstd::prelude::*;
use crate::arena::{adopted_all, attached, empty_view, live, Component, EntityData, EntityView, WidgetError};
use crate::components::{Entity, FlexDirection, Plain, Style};
use crate::widget::{Widget, WidgetBuilder};
use crate::widgets::base::Base;

verus! {

/// The roots of `ws`, in order.
pub open spec fn roots(ws: Seq<Base>) -> Seq<Entity> {
    ws.map_values(|w: Base| w.root)
}

/// The node entity of a new stack.
pub open spec fn stack_view(direction: FlexDirection) -> EntityView {
    EntityView {
        plain: Plain {
            style: Some(Style { flex_direction: direction, min_height: 0, absolute: false }),
            ..Plain::spec_empty()
        },
        ..empty_view()
    }
}

/// A container of widgets.
#[derive(Clone, Copy, PartialEq, Eq, Structural, Debug)]
pub struct Stack {
    pub base: Base,
}

impl Widget for Stack {
    open spec fn builder_spec(&self) -> u64 {
        self.base.builder
    }

    open spec fn root_spec(&self) -> Entity {
        self.base.root
    }

    fn builder_id(&self) -> (r: u64) {
        self.base.builder
    }

    fn root_id(&self) -> (r: Entity) {
        self.base.root
    }
}

impl Stack {
    /// A stack of `widgets` laid out in `direction`. Fails, adding nothing,
    /// where one of the widgets belongs to another builder, or (then) where
    /// one of their roots is not live.
    pub fn new(wb: &mut WidgetBuilder, flex_direction: FlexDirection, widgets: &Vec<Base>) -> (r:
        Result<Stack, WidgetError>)
        ensures
            final(wb).id == old(wb).id,
            final(wb).default_font == old(wb).default_font,
            (r == Err::<Stack, WidgetError>(WidgetError::CrossArenaComposition)) == exists|k: int|
                0 <= k < widgets@.len() && (#[trigger] widgets@[k]).builder != old(wb).id,
            r.is_ok() == (forall|k: int|
                0 <= k < widgets@.len() ==> (#[trigger] widgets@[k]).builder == old(wb).id && live(
                    old(wb).world@,
                    widgets@[k].root,
                )),
            r.is_err() ==> final(wb).world@ == old(wb).world@,
            r.is_ok() ==> r.unwrap().base.builder == old(wb).id && r.unwrap().base.root.index
                == old(wb).world@.len() && final(wb).world@ == adopted_all(
                old(wb).world@.push(Some(stack_view(flex_direction))),
                r.unwrap().base.root,
                roots(widgets@),
            ),
    {
        let mut i: usize = 0;
        while i < widgets.len()
            invariant
                i <= widgets@.len(),
                forall|k: int| 0 <= k < i ==> (#[trigger] widgets@[k]).builder == wb.id,
            decreases widgets@.len() - i,
        {
            if widgets[i].builder != wb.id {
                return Err(WidgetError::CrossArenaComposition);
            }
            i = i + 1;
        }
        let mut children: Vec<Entity> = Vec::new();
        let mut j: usize = 0;
        while j < widgets.len()
            invariant
                j <= widgets@.len(),
                forall|k: int| 0 <= k < widgets@.len() ==> (#[trigger] widgets@[k]).builder == wb.id,
                forall|k: int| 0 <= k < j ==> live(wb.world@, (#[trigger] widgets@[k]).root),
                children@ == roots(widgets@.take(j as int)),
            decreases widgets@.len() - j,
        {
            if !wb.world.contains(widgets[j].root) {
                return Err(WidgetError::MissingEntity(widgets[j].root));
            }
            children.push(widgets[j].root);
            j = j + 1;
            proof {
                assert(children@ =~= roots(widgets@.take(j as int)));
            }
        }
        proof {
            assert(widgets@.take(widgets@.len() as int) =~= widgets@);
        }
        let ghost w0 = wb.world@;
        let mut d = EntityData::empty();
        d.plain.style = Some(Style { flex_direction, min_height: 0, absolute: false });
        let base = Base::spawn_with(wb, d);
        proof {
            assert(d@ == stack_view(flex_direction));
            assert forall|k: int| 0 <= k < children@.len() implies live(
                wb.world@,
                #[trigger] children@[k],
            ) by {
                assert(children@[k] == widgets@[k].root);
            }
        }
        match wb.push_children(&base, &children) {
            Ok(()) => {},
            Err(e) => {
                proof {
                    assert(false);
                }
                return Err(e);
            },
        }
        Ok(Stack { base })
    }

    /// A column of `widgets`.
    pub fn new_col(wb: &mut WidgetBuilder, widgets: &Vec<Base>) -> (r: Result<Stack, WidgetError>)
        ensures
            final(wb).id == old(wb).id,
            (r == Err::<Stack, WidgetError>(WidgetError::CrossArenaComposition)) == exists|k: int|
                0 <= k < widgets@.len() && (#[trigger] widgets@[k]).builder != old(wb).id,
            r.is_ok() == (forall|k: int|
                0 <= k < widgets@.len() ==> (#[trigger] widgets@[k]).builder == old(wb).id && live(
                    old(wb).world@,
                    widgets@[k].root,
                )),
            r.is_err() ==> final(wb).world@ == old(wb).world@,
            r.is_ok() ==> r.unwrap().base.root.index == old(wb).world@.len() && final(wb).world@
                == adopted_all(
                old(wb).world@.push(Some(stack_view(FlexDirection::ColumnReverse))),
                r.unwrap().base.root,
                roots(widgets@),
            ),
    {
        Stack::new(wb, FlexDirection::ColumnReverse, widgets)
    }

    /// A row of `widgets`.
    pub fn new_row(wb: &mut WidgetBuilder, widgets: &Vec<Base>) -> (r: Result<Stack, WidgetError>)
        ensures
            final(wb).id == old(wb).id,
            (r == Err::<Stack, WidgetError>(WidgetError::CrossArenaComposition)) == exists|k: int|
                0 <= k < widgets@.len() && (#[trigger] widgets@[k]).builder != old(wb).id,
            r.is_ok() == (forall|k: int|
                0 <= k < widgets@.len() ==> (#[trigger] widgets@[k]).builder == old(wb).id && live(
                    old(wb).world@,
                    widgets@[k].root,
                )),
            r.is_err() ==> final(wb).world@ == old(wb).world@,
            r.is_ok() ==> r.unwrap().base.root.index == old(wb).world@.len() && final(wb).world@
                == adopted_all(
                old(wb).world@.push(Some(stack_view(FlexDirection::Row))),
                r.unwrap().base.root,
                roots(widgets@),
            ),
    {
        Stack::new(wb, FlexDirection::Row, widgets)
    }

    /// An empty column.
    pub fn new_empty_col(wb: &mut WidgetBuilder) -> (r: Stack)
        ensures
            final(wb).id == old(wb).id,
            r.base.builder == old(wb).id,
            r.base.root.index == old(wb).world@.len(),
            final(wb).world@ == old(wb).world@.push(Some(stack_view(FlexDirection::ColumnReverse))),
    {
        let mut d = EntityData::empty();
        d.plain.style = Some(
            Style { flex_direction: FlexDirection::ColumnReverse, min_height: 0, absolute: false },
        );
        Stack { base: Base::spawn_with(wb, d) }
    }

    /// An empty row.
    pub fn new_empty_row(wb: &mut WidgetBuilder) -> (r: Stack)
        ensures
            final(wb).id == old(wb).id,
            r.base.builder == old(wb).id,
            r.base.root.index == old(wb).world@.len(),
            final(wb).world@ == old(wb).world@.push(Some(stack_view(FlexDirection::Row))),
    {
        let mut d = EntityData::empty();
        d.plain.style = Some(
            Style { flex_direction: FlexDirection::Row, min_height: 0, absolute: false },
        );
        Stack { base: Base::spawn_with(wb, d) }
    }
}

/// `a` with `c` attached to each of the live entities `es`; the others are skipped.
pub open spec fn attached_each(a: Seq<Option<EntityView>>, es: Seq<Entity>, c: Component) -> Seq<
    Option<EntityView>,
>
    decreases es.len(),
{
    if es.len() == 0 {
        a
    } else {
        let prev = attached_each(a, es.drop_last(), c);
        let e = es.last();
        if live(prev, e) {
            prev.update(e.index as int, Some(attached(prev[e.index as int].unwrap(), c)))
        } else {
            prev
        }
    }
}

impl Stack {
    /// Attaches `c` to each child of the stack.
    pub fn with_each_child(&self, wb: &mut WidgetBuilder, c: Component) -> (r: Result<(), WidgetError>)
        ensures
            final(wb).id == old(wb).id,
            final(wb).default_font == old(wb).default_font,
            (r == Err::<(), WidgetError>(WidgetError::CrossArenaComposition)) == (self.base.builder
                != old(wb).id),
            r.is_ok() == (self.base.builder == old(wb).id && live(old(wb).world@, self.base.root)),
            r.is_err() ==> final(wb).world@ == old(wb).world@,
            r.is_ok() ==> final(wb).world@ == attached_each(
                old(wb).world@,
                old(wb).world@[self.base.root.index as int].unwrap().children,
                c,
            ),
    {
        if self.base.builder != wb.id {
            return Err(WidgetError::CrossArenaComposition);
        }
        if !wb.world.contains(self.base.root) {
            return Err(WidgetError::MissingEntity(self.base.root));
        }
        let kids = wb.world.children_of(self.base.root);
        let ghost a = wb.world@;
        let mut i: usize = 0;
        while i < kids.len()
            invariant
                i <= kids@.len(),
                wb.id == old(wb).id,
                wb.default_font == old(wb).default_font,
                wb.world@ == attached_each(a, kids@.take(i as int), c),
            decreases kids@.len() - i,
        {
            proof {
                assert(kids@.take(i + 1).drop_last() =~= kids@.take(i as int));
            }
            let d = c.duplicate();
            let _ = wb.world.insert(kids[i], d);
            i = i + 1;
        }
        proof {
            assert(kids@.take(kids@.len() as int) =~= kids@);
        }
        Ok(())
    }
}

} // verus!
