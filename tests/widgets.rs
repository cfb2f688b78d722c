use prototype_widgets::arena::{Arena, Component, WidgetError};
use prototype_widgets::components::{
    ButtonMaterial, Color, Entity, EventButton, FlexDirection, FocusPolicy, Focusable, Interaction,
};
use prototype_widgets::focus::mouse_focus;
use prototype_widgets::scene::GraftError;
use prototype_widgets::widget::set_root_id;
use prototype_widgets::widgets::button::{event_button, update_button_material};
use prototype_widgets::widgets::input_box::{
    input_box_clear, input_box_keyboard, move_caret, show_caret, CaretPlacement,
};
use prototype_widgets::widgets::{
    Base, Button, FromScene, InputBox, InputBoxClearEvent, Label, Stack,
};
use prototype_widgets::{CurrentFocus, Widget, WidgetBuilder};

#[test]
fn widgets_of_different_builders_are_not_composed() {
    let mut wb1 = WidgetBuilder::new(1, 0);
    let mut wb2 = WidgetBuilder::new(2, 0);
    let a = Label::new(&mut wb1, "a");
    let b = Label::new(&mut wb2, "b");
    let r = Stack::new_row(&mut wb1, &vec![Base::of(&a), Base::of(&b)]);
    assert_eq!(r, Err(WidgetError::CrossArenaComposition));
    assert_eq!(wb1.world.len(), 1);
    assert_eq!(wb2.world.len(), 1);
    assert_eq!(wb1.world.slots[0].as_ref().unwrap().parent, None);
    assert_eq!(Button::new(&mut wb1, &b), Err(WidgetError::CrossArenaComposition));
    assert_eq!(wb1.world.len(), 1);
}

#[test]
fn composing_a_removed_widget_is_a_missing_entity() {
    let mut wb = WidgetBuilder::new(1, 0);
    let a = Label::new(&mut wb, "a");
    wb.world.despawn(a.root_id());
    let r = Stack::new_col(&mut wb, &vec![Base::of(&a)]);
    assert_eq!(r, Err(WidgetError::MissingEntity(a.root_id())));
    assert_eq!(wb.world.len(), 1);
    assert_eq!(wb.insert(&a, Component::Visible(true)), Err(WidgetError::MissingEntity(a.root_id())));
}

#[test]
fn stack_holds_children_in_order() {
    let mut wb = WidgetBuilder::new(1, 0);
    let a = Label::new(&mut wb, "a");
    let b = Label::new(&mut wb, "b");
    let s = Stack::new_col(&mut wb, &vec![Base::of(&b), Base::of(&a)]).unwrap();
    assert_eq!(wb.world.children_of(s.root_id()), vec![b.root_id(), a.root_id()]);
    assert_eq!(wb.world.slots[a.root_id().index].as_ref().unwrap().parent, Some(s.root_id()));
    let style = wb.world.slots[s.root_id().index].as_ref().unwrap().plain.style.unwrap();
    assert_eq!(style.flex_direction, FlexDirection::ColumnReverse);
    let e = Stack::new_empty_row(&mut wb);
    assert!(wb.world.children_of(e.root_id()).is_empty());
    let e2 = Stack::new_empty_col(&mut wb);
    assert_eq!(wb.world.slots[e2.root_id().index].as_ref().unwrap().plain.style.unwrap().flex_direction, FlexDirection::ColumnReverse);
}

#[test]
fn pushing_children_moves_them_between_parents() {
    let mut wb = WidgetBuilder::new(1, 0);
    let a = Label::new(&mut wb, "a");
    let s1 = Stack::new_row(&mut wb, &vec![Base::of(&a)]).unwrap();
    let s2 = Stack::new_empty_row(&mut wb);
    wb.push_children(&s2, &vec![a.root_id()]).unwrap();
    assert!(wb.world.children_of(s1.root_id()).is_empty());
    assert_eq!(wb.world.children_of(s2.root_id()), vec![a.root_id()]);
    assert_eq!(wb.world.slots[a.root_id().index].as_ref().unwrap().parent, Some(s2.root_id()));
    let dead = Entity { index: 40 };
    assert_eq!(wb.push_children(&s2, &vec![dead]), Err(WidgetError::MissingEntity(dead)));
}

#[test]
fn button_passes_clicks_through_its_child() {
    let mut wb = WidgetBuilder::new(1, 0);
    let l = Label::new(&mut wb, "ok");
    let b = Button::new(&mut wb, &l).unwrap();
    assert_eq!(wb.world.children_of(b.root_id()), vec![l.root_id()]);
    let child = wb.world.slots[l.root_id().index].as_ref().unwrap();
    assert_eq!(child.plain.focus_policy, Some(FocusPolicy::Pass));
    assert_eq!(child.parent, Some(b.root_id()));
    let root = wb.world.slots[b.root_id().index].as_ref().unwrap();
    assert_eq!(root.plain.focusable, Some(Focusable::Unfocused));
    assert_eq!(root.plain.focus_policy, Some(FocusPolicy::Block));
    b.with_child(&mut wb, Component::Visible(false)).unwrap();
    assert_eq!(wb.world.slots[l.root_id().index].as_ref().unwrap().plain.visible, Some(false));
}

#[test]
fn label_styling_hooks() {
    let mut wb = WidgetBuilder::new(1, 5);
    let l = Label::new(&mut wb, "hi");
    let t = wb.world.slots[0].as_ref().unwrap().text.as_ref().unwrap();
    assert_eq!(t.value, "hi");
    assert_eq!(t.style.font, 5);
    l.set_font_size(&mut wb, 30).unwrap();
    l.set_font_color(&mut wb, Color { r: 1, g: 2, b: 3, a: 4 }).unwrap();
    let d = wb.world.slots[0].as_ref().unwrap();
    assert_eq!(d.text.as_ref().unwrap().style.font_size, 30);
    assert_eq!(d.text.as_ref().unwrap().style.color, Color { r: 1, g: 2, b: 3, a: 4 });
    assert_eq!(d.plain.style.unwrap().min_height, 30);
    let mut other = WidgetBuilder::new(2, 0);
    assert_eq!(l.set_font_size(&mut other, 3), Err(WidgetError::CrossArenaComposition));
}

#[test]
fn with_each_child_attaches_to_every_child() {
    let mut wb = WidgetBuilder::new(1, 0);
    let a = Label::new(&mut wb, "a");
    let b = Label::new(&mut wb, "b");
    let s = Stack::new_row(&mut wb, &vec![Base::of(&a), Base::of(&b)]).unwrap();
    s.with_each_child(&mut wb, Component::Material(9)).unwrap();
    assert_eq!(wb.world.slots[a.root_id().index].as_ref().unwrap().plain.material, Some(9));
    assert_eq!(wb.world.slots[b.root_id().index].as_ref().unwrap().plain.material, Some(9));
    assert_eq!(wb.world.slots[s.root_id().index].as_ref().unwrap().plain.material, None);
}

#[test]
fn set_root_id_records_the_root() {
    let mut wb = WidgetBuilder::new(1, 0);
    let a = Label::new(&mut wb, "a");
    let mut slot = None;
    set_root_id(&a, &mut slot);
    assert_eq!(slot, Some(a.root_id()));
    assert_eq!(a.builder_id(), 1);
}

#[test]
fn from_scene_grafts_template_into_builder() {
    let mut t = WidgetBuilder::new(1, 0);
    let l = Label::new(&mut t, "row");
    Button::new(&mut t, &l).unwrap();
    let template = t.into_template();
    let mut wb = WidgetBuilder::new(2, 0);
    let r1 = FromScene::new(&mut wb, &template).unwrap();
    let r2 = FromScene::new(&mut wb, &template).unwrap();
    let list = Stack::new_col(&mut wb, &vec![Base::of(&r1), Base::of(&r2)]).unwrap();
    assert_eq!(wb.world.children_of(list.root_id()), vec![r1.root_id(), r2.root_id()]);
    assert_eq!(r1.root_id(), Entity { index: 1 });
    assert_eq!(r2.root_id(), Entity { index: 3 });
    let empty = WidgetBuilder::new(3, 0).into_template();
    assert_eq!(FromScene::new(&mut wb, &empty).err(), Some(GraftError::EmptyTemplate));
}

#[test]
fn event_buttons_emit_when_clicked() {
    let mut a = Arena::new();
    let e = a.spawn();
    let f = a.spawn();
    a.insert(e, Component::EventButton(EventButton::new(7, f))).unwrap();
    a.insert(e, Component::Interaction(Interaction::Clicked)).unwrap();
    a.insert(f, Component::EventButton(EventButton::new(8, e))).unwrap();
    a.insert(f, Component::Interaction(Interaction::Hovered)).unwrap();
    let out = event_button(&a, &vec![e, f, Entity { index: 5 }]);
    assert_eq!(out, vec![EventButton { tag: 7, target: f }]);
}

#[test]
fn button_material_follows_interaction() {
    let mut a = Arena::new();
    let m = ButtonMaterial { material: 1, material_hovered: 2, material_clicked: 3 };
    for it in [Interaction::Idle, Interaction::Hovered, Interaction::Clicked] {
        let e = a.spawn();
        a.insert(e, Component::ButtonMaterial(m)).unwrap();
        a.insert(e, Component::Interaction(it)).unwrap();
    }
    let bare = a.spawn();
    update_button_material(&mut a);
    assert_eq!(a.slots[0].as_ref().unwrap().plain.material, Some(1));
    assert_eq!(a.slots[1].as_ref().unwrap().plain.material, Some(2));
    assert_eq!(a.slots[2].as_ref().unwrap().plain.material, Some(3));
    assert_eq!(a.slots[bare.index].as_ref().unwrap().plain.material, None);
}

#[test]
fn input_box_typing_submitting_and_clearing() {
    let mut wb = WidgetBuilder::new(1, 0);
    let ib = InputBox::new(&mut wb);
    let mut world = wb.world;
    let mut focus = CurrentFocus { focused: None };
    let none = input_box_keyboard(&mut world, &focus, false, false, &vec!['a']);
    assert!(none.is_empty());
    mouse_focus(&mut world, &mut focus, &vec![ib.root_id()]);
    assert!(show_caret(&mut world, ib.root_id()));
    assert_eq!(world.slots[ib.caret.index].as_ref().unwrap().plain.visible, Some(true));
    let out = input_box_keyboard(&mut world, &focus, false, false, &vec!['h', 'é', '\r']);
    assert_eq!(out.len(), 1);
    assert_eq!(out[0].source, ib.root_id());
    assert_eq!(out[0].text, "hé");
    assert_eq!(world.slots[ib.text.index].as_ref().unwrap().text.as_ref().unwrap().value, "hé");
    assert_eq!(world.slots[ib.caret.index].as_ref().unwrap().caret.unwrap().character_index, 3);
    input_box_keyboard(&mut world, &focus, true, false, &vec!['\u{8}']);
    assert_eq!(world.slots[ib.text.index].as_ref().unwrap().text.as_ref().unwrap().value, "é");
    assert_eq!(world.slots[ib.caret.index].as_ref().unwrap().caret.unwrap().character_index, 0);
    assert!(input_box_clear(&mut world, InputBoxClearEvent { target: ib.root_id() }));
    assert_eq!(world.slots[ib.text.index].as_ref().unwrap().text.as_ref().unwrap().value, "");
    assert!(!input_box_clear(&mut world, InputBoxClearEvent { target: ib.text }));
}

#[test]
fn mutate_style_adjusts_layout_or_skips() {
    let mut wb = WidgetBuilder::new(1, 0);
    let l = Label::new(&mut wb, "a");
    let r = wb.mutate_style(&l, |s| prototype_widgets::components::Style { min_height: s.min_height + 8, ..s });
    assert_eq!(r, Ok(true));
    assert_eq!(wb.world.slots[l.root_id().index].as_ref().unwrap().plain.style.unwrap().min_height, 20);
    let bare = Base::spawn(&mut wb);
    assert_eq!(wb.mutate_style(&bare, |s| s), Ok(false));
    let other = Base { builder: 9, root: bare.root };
    assert_eq!(wb.mutate_style(&other, |s| s), Err(WidgetError::CrossArenaComposition));
}

#[test]
fn caret_placement_follows_glyphs() {
    let glyphs = Some(vec![0usize, 1, 3, 6]);
    assert_eq!(move_caret(0, 10, &None), CaretPlacement::Start);
    assert_eq!(move_caret(3, 10, &None), CaretPlacement::Unchanged);
    assert_eq!(move_caret(10, 10, &glyphs), CaretPlacement::End);
    assert_eq!(move_caret(3, 10, &glyphs), CaretPlacement::AtGlyph(2));
    assert_eq!(move_caret(4, 10, &glyphs), CaretPlacement::Unchanged);
}

#[test]
fn insert_bundle_and_get_on_root() {
    let mut wb = WidgetBuilder::new(1, 0);
    let b = Base::spawn(&mut wb);
    let r = wb.insert_bundle(
        &b,
        vec![Component::Material(3), Component::Interaction(Interaction::Hovered), Component::Material(4)],
    );
    assert_eq!(r, Ok(()));
    let d = wb.get(&b).unwrap();
    assert_eq!(d.plain.material, Some(4));
    assert_eq!(d.plain.interaction, Some(Interaction::Hovered));
    wb.world.despawn(b.root_id());
    assert!(matches!(wb.get(&b), Err(WidgetError::MissingEntity(_))));
    assert_eq!(wb.insert_bundle(&b, vec![]), Err(WidgetError::MissingEntity(b.root_id())));
}

#[test]
fn with_child_fails_without_a_live_child() {
    let mut wb = WidgetBuilder::new(1, 0);
    let l = Label::new(&mut wb, "x");
    let b = Button::new(&mut wb, &l).unwrap();
    wb.world.despawn(l.root_id());
    assert_eq!(b.with_child(&mut wb, Component::Visible(true)), Err(WidgetError::MissingEntity(l.root_id())));
    let bare = Button { base: Base::spawn(&mut wb) };
    assert_eq!(bare.with_child(&mut wb, Component::Visible(true)), Err(WidgetError::MissingEntity(bare.root_id())));
    let other = Button { base: Base { builder: 5, root: b.root_id() } };
    assert_eq!(other.with_child(&mut wb, Component::Visible(true)), Err(WidgetError::CrossArenaComposition));
}

#[test]
fn insert_attaches_to_a_live_root() {
    let mut wb = WidgetBuilder::new(1, 0);
    let b = Base::spawn(&mut wb);
    assert_eq!(wb.insert(&b, Component::Material(6)), Ok(()));
    assert_eq!(wb.world.slots[b.root.index].as_ref().unwrap().plain.material, Some(6));
}
