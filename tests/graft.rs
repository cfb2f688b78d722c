use prototype_widgets::arena::{Arena, Component, EntityData};
use prototype_widgets::components::{Caret, Entity, EntityMap, MapEntitiesError};
use prototype_widgets::scene::{clear_scene, spawn_scene, GraftError, Scene};
use prototype_widgets::widgets::{Base, InputBox, Label, Stack};
use prototype_widgets::WidgetBuilder;

fn text_of(a: &Arena, e: Entity) -> String {
    a.slots[e.index].as_ref().unwrap().text.as_ref().unwrap().value.clone()
}

fn row_template() -> Scene {
    let mut wb = WidgetBuilder::new(1, 7);
    let label = Label::new(&mut wb, "X");
    Stack::new_row(&mut wb, &vec![Base::of(&label)]).unwrap();
    wb.into_template()
}

#[test]
fn template_reuse_gives_independent_copies() {
    let scene = row_template();
    let mut dest = Arena::new();
    let r1 = spawn_scene(&mut dest, &scene).unwrap();
    let r2 = spawn_scene(&mut dest, &scene).unwrap();
    assert_ne!(r1, r2);
    let l1 = dest.children_of(r1)[0];
    let l2 = dest.children_of(r2)[0];
    assert_ne!(l1, l2);
    assert_eq!(text_of(&dest, l1), "X");
    assert_eq!(text_of(&dest, l2), "X");
    dest.slots[l1.index].as_mut().unwrap().text.as_mut().unwrap().value.push('Y');
    assert_eq!(text_of(&dest, l1), "XY");
    assert_eq!(text_of(&dest, l2), "X");
    assert_eq!(dest.slots[l1.index].as_ref().unwrap().parent, Some(r1));
    assert_eq!(dest.slots[l2.index].as_ref().unwrap().parent, Some(r2));
}

#[test]
fn dangling_reference_is_rejected_and_nothing_added() {
    let mut wb = WidgetBuilder::new(1, 0);
    let ib = InputBox::new(&mut wb);
    assert!(wb.world.despawn(ib.caret()));
    let scene = wb.into_template();
    let mut dest = Arena::new();
    dest.spawn();
    assert_eq!(spawn_scene(&mut dest, &scene), Err(GraftError::DanglingReference));
    assert_eq!(dest.len(), 1);
}

#[test]
fn empty_template_is_rejected() {
    let scene = WidgetBuilder::new(1, 0).into_template();
    let mut dest = Arena::new();
    assert_eq!(spawn_scene(&mut dest, &scene), Err(GraftError::EmptyTemplate));
    assert_eq!(dest.len(), 0);
}

#[test]
fn template_with_two_roots_is_rejected() {
    let mut wb = WidgetBuilder::new(1, 0);
    Label::new(&mut wb, "a");
    Label::new(&mut wb, "b");
    let scene = wb.into_template();
    let mut dest = Arena::new();
    assert_eq!(spawn_scene(&mut dest, &scene), Err(GraftError::EmptyTemplate));
    assert_eq!(dest.len(), 0);
}

#[test]
fn graft_into_empty_arena_reproduces_template() {
    let mut wb = WidgetBuilder::new(1, 3);
    let a = Label::new(&mut wb, "a");
    let b = Label::new(&mut wb, "b");
    Stack::new_col(&mut wb, &vec![Base::of(&a), Base::of(&b)]).unwrap();
    let scene = wb.into_template();
    let mut dest = Arena::new();
    let root = spawn_scene(&mut dest, &scene).unwrap();
    assert_eq!(root, Entity { index: 2 });
    assert_eq!(dest.len(), scene.world.len());
    for i in 0..dest.len() {
        let x = dest.slots[i].as_ref().unwrap();
        let y = scene.world.slots[i].as_ref().unwrap();
        assert_eq!(x.parent, y.parent);
        assert_eq!(x.children, y.children);
        assert_eq!(x.plain, y.plain);
        assert_eq!(x.text.as_ref().map(|t| t.value.clone()), y.text.as_ref().map(|t| t.value.clone()));
    }
}

#[test]
fn graft_rewrites_references_to_the_copies() {
    let mut wb = WidgetBuilder::new(1, 0);
    let ib = InputBox::new(&mut wb);
    let scene = wb.into_template();
    let mut dest = Arena::new();
    dest.spawn();
    dest.spawn();
    let root = spawn_scene(&mut dest, &scene).unwrap();
    assert_eq!(root, Entity { index: ib.base.root.index + 2 });
    let links = dest.slots[root.index].as_ref().unwrap().input_box.unwrap();
    assert_eq!(links.text, Entity { index: ib.text.index + 2 });
    assert_eq!(links.caret, Entity { index: ib.caret.index + 2 });
    let caret = dest.slots[links.caret.index].as_ref().unwrap().caret.unwrap();
    assert_eq!(caret.text, links.text);
    assert_eq!(dest.slots[links.caret.index].as_ref().unwrap().parent, Some(links.text));
    assert_eq!(dest.children_of(links.text), vec![links.caret]);
    assert_eq!(dest.children_of(root), vec![links.text]);
}

#[test]
fn grafting_twice_gives_disjoint_copies() {
    let mut wb = WidgetBuilder::new(1, 0);
    InputBox::new(&mut wb);
    let scene = wb.into_template();
    let mut dest = Arena::new();
    let r1 = spawn_scene(&mut dest, &scene).unwrap();
    let r2 = spawn_scene(&mut dest, &scene).unwrap();
    assert_eq!(dest.len(), 6);
    assert_eq!(r1, Entity { index: 2 });
    assert_eq!(r2, Entity { index: 5 });
    for i in 0..3 {
        let x = dest.slots[i].as_ref().unwrap();
        let y = dest.slots[i + 3].as_ref().unwrap();
        assert_eq!(x.plain, y.plain);
        assert_eq!(x.parent.map(|e| e.index + 3), y.parent.map(|e| e.index));
        for c in x.children.iter() {
            assert!(c.index < 3);
        }
        for c in y.children.iter() {
            assert!(c.index >= 3 && c.index < 6);
        }
    }
    let l1 = dest.slots[r1.index].as_ref().unwrap().input_box.unwrap();
    let l2 = dest.slots[r2.index].as_ref().unwrap().input_box.unwrap();
    assert!(l1.text.index < 3 && l1.caret.index < 3);
    assert!(l2.text.index >= 3 && l2.caret.index >= 3);
}

#[test]
fn entity_map_lookup_fails_for_unknown_entity() {
    let map = EntityMap { entries: vec![Some(Entity { index: 4 }), None] };
    assert_eq!(map.get(Entity { index: 0 }), Ok(Entity { index: 4 }));
    let missing = Entity { index: 1 };
    assert_eq!(map.get(missing), Err(MapEntitiesError::EntityNotFound(missing)));
    let outside = Entity { index: 9 };
    assert_eq!(map.get(outside), Err(MapEntitiesError::EntityNotFound(outside)));
    let mut caret = Caret { text: Entity { index: 0 }, character_index: 3 };
    assert_eq!(caret.map_entities(&map), Ok(()));
    assert_eq!(caret, Caret { text: Entity { index: 4 }, character_index: 3 });
}

#[test]
fn clear_scene_removes_everything() {
    let mut a = Arena::new();
    let e = a.spawn();
    a.spawn();
    assert!(a.insert(e, Component::Visible(true)).is_ok());
    clear_scene(&mut a);
    assert_eq!(a.len(), 2);
    assert!(!a.contains(e));
    assert!(!a.contains(Entity { index: 1 }));
}

#[test]
fn entity_data_copy_keeps_components() {
    let mut d = EntityData::empty();
    d.attach(Component::Visible(false));
    d.children.push(Entity { index: 5 });
    let c = d.duplicate();
    assert_eq!(c.plain.visible, Some(false));
    assert_eq!(c.children, vec![Entity { index: 5 }]);
}

#[test]
fn dangling_parent_without_root_is_a_dangling_reference() {
    let mut wb = WidgetBuilder::new(1, 0);
    let child = Base::spawn(&mut wb);
    let parent = Base::spawn(&mut wb);
    wb.push_children(&parent, &vec![child.root]).unwrap();
    assert!(wb.world.despawn(parent.root));
    let scene = wb.into_template();
    let mut dest = Arena::new();
    assert_eq!(spawn_scene(&mut dest, &scene), Err(GraftError::DanglingReference));
    assert_eq!(dest.len(), 0);
}
