//! A text-bearing leaf.
use vstd::prelude::*;
use crate::arena::{empty_view, live, EntityData, EntityView, WidgetError};
use crate::components::{Color, FlexDirection, Plain, Style, Text, TextStyle, TextView};
use crate::widget::{Widget, WidgetBuilder};
use crate::widgets::base::Base;

verus! {

/// Font size of a text until it is changed.
pub const DEFAULT_FONT_SIZE: u32 = 12;

pub open spec fn black() -> Color {
    Color { r: 0, g: 0, b: 0, a: 255 }
}

/// Layout of a label, as tall as its font.
pub open spec fn label_style(font_size: u32) -> Style {
    Style { flex_direction: FlexDirection::Row, min_height: font_size, absolute: false }
}

/// The entity of a new label showing `s` in `font`.
pub open spec fn label_view(s: Seq<char>, font: u64) -> EntityView {
    EntityView {
        text: Some(
            TextView {
                value: s,
                style: TextStyle { font, font_size: DEFAULT_FONT_SIZE, color: black() },
            },
        ),
        plain: Plain { style: Some(label_style(DEFAULT_FONT_SIZE)), ..Plain::spec_empty() },
        ..empty_view()
    }
}

/// A widget that shows a line of text.
#[derive(Clone, Copy, PartialEq, Eq, Structural, Debug)]
pub struct Label {
    pub base: Base,
}

impl Widget for Label {
    open spec fn builder_spec(&self) -> u64 {
        self.base.builder
    }

    open spec fn root_spec(&self) -> crate::components::Entity {
        self.base.root
    }

    fn builder_id(&self) -> (r: u64) {
        self.base.builder
    }

    fn root_id(&self) -> (r: crate::components::Entity) {
        self.base.root
    }
}

impl Label {
    /// A label showing `label` in the builder's default font.
    pub fn new(wb: &mut WidgetBuilder, label: &str) -> (r: Label)
        ensures
            final(wb).id == old(wb).id,
            final(wb).default_font == old(wb).default_font,
            final(wb).world@ == old(wb).world@.push(Some(label_view(label@, old(wb).default_font))),
            r.base.builder == old(wb).id,
            r.base.root.index == old(wb).world@.len(),
    {
        let mut d = EntityData::empty();
        d.text = Some(
            Text {
                value: label.to_owned(),
                style: TextStyle {
                    font: wb.default_font,
                    font_size: DEFAULT_FONT_SIZE,
                    color: Color { r: 0, g: 0, b: 0, a: 255 },
                },
            },
        );
        d.plain.style = Some(
            Style { flex_direction: FlexDirection::Row, min_height: DEFAULT_FONT_SIZE, absolute: false },
        );
        proof {
            assert(d@ == label_view(label@, wb.default_font));
        }
        Label { base: Base::spawn_with(wb, d) }
    }
}

/// `v` with the size of its text and the height of its layout set to
/// `size`, each where present.
pub open spec fn with_font_size(v: EntityView, size: u32) -> EntityView {
    EntityView {
        text: match v.text {
            Some(t) => Some(TextView { style: TextStyle { font_size: size, ..t.style }, ..t }),
            None => None,
        },
        plain: Plain {
            style: match v.plain.style {
                Some(st) => Some(Style { min_height: size, ..st }),
                None => None,
            },
            ..v.plain
        },
        ..v
    }
}

/// `v` with the colour of its text set to `color`, where it has text.
pub open spec fn with_font_color(v: EntityView, color: Color) -> EntityView {
    EntityView {
        text: match v.text {
            Some(t) => Some(TextView { style: TextStyle { color, ..t.style }, ..t }),
            None => None,
        },
        ..v
    }
}

impl Label {
    /// Sets the font size of the label's text, and its height to match.
    pub fn set_font_size(&self, wb: &mut WidgetBuilder, font_size: u32) -> (r: Result<(), WidgetError>)
        ensures
            final(wb).id == old(wb).id,
            final(wb).default_font == old(wb).default_font,
            (r == Err::<(), WidgetError>(WidgetError::CrossArenaComposition)) == (self.base.builder
                != old(wb).id),
            r.is_ok() == (self.base.builder == old(wb).id && live(old(wb).world@, self.base.root)),
            r.is_err() ==> final(wb).world@ == old(wb).world@,
            r.is_ok() ==> final(wb).world@ == old(wb).world@.update(
                self.base.root.index as int,
                Some(with_font_size(old(wb).world@[self.base.root.index as int].unwrap(), font_size)),
            ),
    {
        if self.base.builder != wb.id {
            return Err(WidgetError::CrossArenaComposition);
        }
        let e = self.base.root;
        if !wb.world.contains(e) {
            return Err(WidgetError::MissingEntity(e));
        }
        let ghost a = wb.world@;
        let slot = wb.world.take_slot(e.index);
        match slot {
            Some(mut d) => {
                let ghost v = d@;
                match d.text {
                    Some(t) => {
                        d.text = Some(Text { value: t.value, style: TextStyle { font_size, ..t.style } });
                    },
                    None => {},
                }
                match d.plain.style {
                    Some(st) => {
                        d.plain.style = Some(Style { min_height: font_size, ..st });
                    },
                    None => {},
                }
                proof {
                    assert(d@ == with_font_size(v, font_size));
                }
                wb.world.put_slot(e.index, Some(d));
            },
            None => {},
        }
        proof {
            assert(wb.world@ =~= a.update(
                e.index as int,
                Some(with_font_size(a[e.index as int].unwrap(), font_size)),
            ));
        }
        Ok(())
    }

    /// Sets the colour of the label's text.
    pub fn set_font_color(&self, wb: &mut WidgetBuilder, color: Color) -> (r: Result<(), WidgetError>)
        ensures
            final(wb).id == old(wb).id,
            final(wb).default_font == old(wb).default_font,
            (r == Err::<(), WidgetError>(WidgetError::CrossArenaComposition)) == (self.base.builder
                != old(wb).id),
            r.is_ok() == (self.base.builder == old(wb).id && live(old(wb).world@, self.base.root)),
            r.is_err() ==> final(wb).world@ == old(wb).world@,
            r.is_ok() ==> final(wb).world@ == old(wb).world@.update(
                self.base.root.index as int,
                Some(with_font_color(old(wb).world@[self.base.root.index as int].unwrap(), color)),
            ),
    {
        if self.base.builder != wb.id {
            return Err(WidgetError::CrossArenaComposition);
        }
        let e = self.base.root;
        if !wb.world.contains(e) {
            return Err(WidgetError::MissingEntity(e));
        }
        let ghost a = wb.world@;
        let slot = wb.world.take_slot(e.index);
        match slot {
            Some(mut d) => {
                let ghost v = d@;
                match d.text {
                    Some(t) => {
                        d.text = Some(Text { value: t.value, style: TextStyle { color, ..t.style } });
                    },
                    None => {},
                }
                proof {
                    assert(d@ == with_font_color(v, color));
                }
                wb.world.put_slot(e.index, Some(d));
            },
            None => {},
        }
        proof {
            assert(wb.world@ =~= a.update(
                e.index as int,
                Some(with_font_color(a[e.index as int].unwrap(), color)),
            ));
        }
        Ok(())
    }
}

} // verus!
