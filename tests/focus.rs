use prototype_widgets::arena::{Arena, Component};
use prototype_widgets::components::{Entity, FocusMaterial, Focusable};
use prototype_widgets::focus::{despawn, focus_material, mouse_focus, tab_navigation};
use prototype_widgets::CurrentFocus;

fn focusables(n: usize) -> Arena {
    let mut a = Arena::new();
    for _ in 0..n {
        let e = a.spawn();
        a.insert(e, Component::Focusable(Focusable::Unfocused)).unwrap();
    }
    a
}

fn state(a: &Arena, i: usize) -> Option<Focusable> {
    a.slots[i].as_ref().unwrap().plain.focusable
}

fn count_focused(a: &Arena) -> usize {
    (0..a.len()).filter(|i| a.slots[*i].as_ref().map(|d| d.plain.focusable) == Some(Some(Focusable::Focused))).count()
}

#[test]
fn clicks_keep_focus_exclusive() {
    let mut a = focusables(3);
    let mut f = CurrentFocus { focused: None };
    let e0 = Entity { index: 0 };
    let e2 = Entity { index: 2 };
    mouse_focus(&mut a, &mut f, &vec![e0]);
    assert_eq!(f.focused, Some(e0));
    assert_eq!(state(&a, 0), Some(Focusable::Focused));
    assert_eq!(count_focused(&a), 1);
    mouse_focus(&mut a, &mut f, &vec![e2]);
    assert_eq!(f.focused, Some(e2));
    assert_eq!(state(&a, 0), Some(Focusable::Unfocused));
    assert_eq!(state(&a, 2), Some(Focusable::Focused));
    assert_eq!(count_focused(&a), 1);
    mouse_focus(&mut a, &mut f, &vec![e0, Entity { index: 1 }, e2, e2]);
    assert_eq!(f.focused, Some(e2));
    assert_eq!(count_focused(&a), 1);
}

#[test]
fn clicks_on_unfocusable_entities_are_ignored() {
    let mut a = focusables(1);
    let plain = a.spawn();
    let mut f = CurrentFocus { focused: None };
    mouse_focus(&mut a, &mut f, &vec![plain, Entity { index: 9 }]);
    assert_eq!(f.focused, None);
    assert_eq!(count_focused(&a), 0);
}

#[test]
fn escape_clears_focus() {
    let mut a = focusables(2);
    let mut f = CurrentFocus { focused: None };
    mouse_focus(&mut a, &mut f, &vec![Entity { index: 1 }]);
    tab_navigation(&mut a, &mut f, false);
    assert_eq!(f.focused, Some(Entity { index: 1 }));
    tab_navigation(&mut a, &mut f, true);
    assert_eq!(f.focused, None);
    assert_eq!(state(&a, 1), Some(Focusable::Unfocused));
    assert_eq!(count_focused(&a), 0);
}

#[test]
fn despawning_the_focused_entity_clears_focus() {
    let mut a = focusables(2);
    let mut f = CurrentFocus { focused: None };
    let e = Entity { index: 0 };
    mouse_focus(&mut a, &mut f, &vec![e]);
    assert!(despawn(&mut a, &mut f, e));
    assert_eq!(f.focused, None);
    assert!(!a.contains(e));
    assert!(!despawn(&mut a, &mut f, e));
}

#[test]
fn focus_material_swaps_and_restores_once() {
    let mut a = Arena::new();
    let e = a.spawn();
    a.insert(e, Component::Material(10)).unwrap();
    a.insert(e, Component::FocusMaterial(FocusMaterial { material: 20, cache: None })).unwrap();
    a.insert(e, Component::Focusable(Focusable::Focused)).unwrap();
    focus_material(&mut a, e);
    let p = a.slots[0].as_ref().unwrap().plain;
    assert_eq!(p.material, Some(20));
    assert_eq!(p.focus_material, Some(FocusMaterial { material: 20, cache: Some(10) }));
    a.insert(e, Component::Focusable(Focusable::Unfocused)).unwrap();
    focus_material(&mut a, e);
    let p = a.slots[0].as_ref().unwrap().plain;
    assert_eq!(p.material, Some(10));
    assert_eq!(p.focus_material, Some(FocusMaterial { material: 20, cache: None }));
    a.insert(e, Component::Material(11)).unwrap();
    focus_material(&mut a, e);
    assert_eq!(a.slots[0].as_ref().unwrap().plain.material, Some(11));
}

#[test]
fn escape_without_focus_changes_nothing() {
    let mut a = focusables(2);
    let mut f = CurrentFocus { focused: None };
    tab_navigation(&mut a, &mut f, true);
    assert_eq!(f.focused, None);
    assert_eq!(state(&a, 0), Some(Focusable::Unfocused));
    assert_eq!(state(&a, 1), Some(Focusable::Unfocused));
}
