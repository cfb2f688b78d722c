//! Input focus: at most one entity holds it, and its focusable state says so.
use vstd::prelude::*;
use crate::arena::{live, Arena, EntityView};
use crate::components::{Entity, FocusMaterial, Focusable};

verus! {

/// The entity that holds the input focus, if any.
#[derive(Clone, Copy, PartialEq, Eq, Structural, Debug)]
pub struct CurrentFocus {
    pub focused: Option<Entity>,
}

/// Slot `i` of `a` is live and its focusable state reads focused.
pub open spec fn reads_focused(a: Seq<Option<EntityView>>, i: int) -> bool {
    0 <= i < a.len() && a[i].is_some() && a[i].unwrap().plain.focusable == Some(Focusable::Focused)
}

/// Slot `i` of `a` is live and focusable.
pub open spec fn is_focusable(a: Seq<Option<EntityView>>, i: int) -> bool {
    0 <= i < a.len() && a[i].is_some() && a[i].unwrap().plain.focusable.is_some()
}

/// The focus slot names exactly the entities that read focused.
pub open spec fn focus_exclusive(a: Seq<Option<EntityView>>, f: CurrentFocus) -> bool {
    &&& forall|i: int| 0 <= i < a.len() ==> (#[trigger] reads_focused(a, i) <==> f.focused == Some(
        Entity { index: i as usize },
    ))
    &&& (f.focused matches Some(e) ==> e.index < a.len())
    &&& a.len() <= usize::MAX
}

/// `a` with the focusable state of slot `i` set to `s`.
pub open spec fn with_focus_state(a: Seq<Option<EntityView>>, i: int, s: Focusable) -> Seq<
    Option<EntityView>,
> {
    let v = a[i].unwrap();
    a.update(
        i,
        Some(EntityView { plain: crate::components::Plain { focusable: Some(s), ..v.plain }, ..v }),
    )
}

/// Where the focus slot is kept exact, no two entities read focused at once.
pub proof fn lemma_focus_at_most_one(a: Seq<Option<EntityView>>, f: CurrentFocus, i: int, j: int)
    requires
        focus_exclusive(a, f),
        reads_focused(a, i),
        reads_focused(a, j),
    ensures
        i == j,
{
    assert(f.focused == Some(Entity { index: i as usize }));
    assert(f.focused == Some(Entity { index: j as usize }));
}

/// An arena in which no entity reads focused, with an empty focus slot,
/// keeps the focus slot exact.
pub proof fn lemma_no_focus(a: Seq<Option<EntityView>>)
    requires
        a.len() <= usize::MAX,
        forall|i: int| 0 <= i < a.len() ==> !#[trigger] reads_focused(a, i),
    ensures
        focus_exclusive(a, CurrentFocus { focused: None }),
{
}

/// Sets the focusable state of the live, focusable slot `i`.
fn set_focus_state(world: &mut Arena, i: usize, s: Focusable)
    requires
        is_focusable(old(world)@, i as int),
    ensures
        final(world)@ == with_focus_state(old(world)@, i as int, s),
{
    let slot = world.take_slot(i);
    match slot {
        Some(mut d) => {
            d.plain.focusable = Some(s);
            world.put_slot(i, Some(d));
        },
        None => {},
    }
    proof {
        assert(world@ =~= with_focus_state(old(world)@, i as int, s));
    }
}

fn focusable_at(world: &Arena, i: usize) -> (r: bool)
    ensures
        r == is_focusable(world@, i as int),
{
    if i < world.slots.len() {
        match &world.slots[i] {
            Some(d) => d.plain.focusable.is_some(),
            None => false,
        }
    } else {
        false
    }
}

/// Gives the focus to `e`, which must be live and focusable; the entity
/// that held it before reads unfocused.
pub fn focus(world: &mut Arena, current: &mut CurrentFocus, e: Entity)
    requires
        focus_exclusive(old(world)@, *old(current)),
        is_focusable(old(world)@, e.index as int),
    ensures
        focus_exclusive(final(world)@, *final(current)),
        final(current).focused == Some(e),
        final(world)@.len() == old(world)@.len(),
        old(current).focused matches Some(p) ==> (p != e ==> final(world)@[p.index as int]
            == with_focus_state(old(world)@, p.index as int, Focusable::Unfocused)[p.index as int]),
        forall|i: int|
            0 <= i < old(world)@.len() && i != e.index && (old(current).focused != Some(
                Entity { index: i as usize },
            )) ==> #[trigger] final(world)@[i] == old(world)@[i],
        final(world)@[e.index as int] == with_focus_state(
            old(world)@,
            e.index as int,
            Focusable::Focused,
        )[e.index as int],
{
    let ghost a0 = world@;
    match current.focused {
        Some(p) => {
            if p.index != e.index {
                proof {
                    assert(reads_focused(a0, p.index as int));
                }
                set_focus_state(world, p.index, Focusable::Unfocused);
            }
        },
        None => {},
    }
    let ghost a1 = world@;
    set_focus_state(world, e.index, Focusable::Focused);
    current.focused = Some(e);
    proof {
        assert forall|i: int| 0 <= i < world@.len() implies (#[trigger] reads_focused(world@, i)
            <==> current.focused == Some(Entity { index: i as usize })) by {
            if i != e.index {
                if old(current).focused == Some(Entity { index: i as usize }) {
                } else {
                    assert(world@[i] == a0[i]);
                    assert(reads_focused(a0, i) == reads_focused(world@, i));
                }
            }
        }
    }
}

/// Takes the focus away, if an entity holds it.
pub fn unfocus(world: &mut Arena, current: &mut CurrentFocus)
    requires
        focus_exclusive(old(world)@, *old(current)),
    ensures
        focus_exclusive(final(world)@, *final(current)),
        final(current).focused.is_none(),
        old(current).focused matches Some(p) ==> final(world)@ == with_focus_state(
            old(world)@,
            p.index as int,
            Focusable::Unfocused,
        ),
        old(current).focused.is_none() ==> final(world)@ == old(world)@,
{
    match current.focused {
        Some(p) => {
            proof {
                assert(reads_focused(world@, p.index as int));
            }
            set_focus_state(world, p.index, Focusable::Unfocused);
            current.focused = None;
            proof {
                assert forall|i: int| 0 <= i < world@.len() implies !#[trigger] reads_focused(
                    world@,
                    i,
                ) by {
                    if i != p.index {
                        assert(world@[i] == old(world)@[i]);
                        assert(!reads_focused(old(world)@, i));
                    }
                }
            }
        },
        None => {},
    }
}

/// One click: a live, focusable entity takes the focus; others are ignored.
fn click(world: &mut Arena, current: &mut CurrentFocus, e: Entity)
    requires
        focus_exclusive(old(world)@, *old(current)),
    ensures
        focus_exclusive(final(world)@, *final(current)),
        final(world)@.len() == old(world)@.len(),
        is_focusable(old(world)@, e.index as int) ==> final(current).focused == Some(e),
        !is_focusable(old(world)@, e.index as int) ==> final(world)@ == old(world)@
            && *final(current) == *old(current),
        forall|j: int| 0 <= j < old(world)@.len() ==> #[trigger] is_focusable(final(world)@, j)
            == is_focusable(old(world)@, j),
        forall|j: int|
            0 <= j < old(world)@.len() && j != e.index && old(current).focused != Some(
                Entity { index: j as usize },
            ) ==> #[trigger] final(world)@[j] == old(world)@[j],
{
    if focusable_at(world, e.index) {
        let ghost before = world@;
        let ghost prev = current.focused;
        focus(world, current, e);
        proof {
            assert forall|j: int| 0 <= j < before.len() implies #[trigger] is_focusable(world@, j)
                == is_focusable(before, j) by {
                if j == e.index {
                } else if prev == Some(Entity { index: j as usize }) {
                    assert(reads_focused(before, j));
                } else {
                    assert(world@[j] == before[j]);
                }
            }
        }
    }
}

/// Slot `j` held the focus in `f0`, or one of `clicked` names it.
#[verifier::opaque]
pub open spec fn touched(f0: CurrentFocus, clicked: Seq<Entity>, j: int) -> bool {
    f0.focused == Some(Entity { index: j as usize }) || exists|k: int|
        0 <= k < clicked.len() && (#[trigger] clicked[k]).index == j
}

proof fn lemma_touched_step(f0: CurrentFocus, clicked: Seq<Entity>, i: int, j: int)
    requires
        0 <= i < clicked.len(),
    ensures
        touched(f0, clicked.take(i + 1), j) == (touched(f0, clicked.take(i), j) || clicked[i].index
            == j),
{
    reveal(touched);
    if clicked[i].index == j {
        assert(clicked.take(i + 1)[i].index == j);
    }
    if touched(f0, clicked.take(i + 1), j) && clicked[i].index != j && f0.focused != Some(
        Entity { index: j as usize },
    ) {
        let k = choose|k: int| 0 <= k < i + 1 && (#[trigger] clicked.take(i + 1)[k]).index == j;
        assert(clicked.take(i)[k].index == j);
    }
    if touched(f0, clicked.take(i), j) && f0.focused != Some(Entity { index: j as usize }) {
        let k = choose|k: int| 0 <= k < i && (#[trigger] clicked.take(i)[k]).index == j;
        assert(clicked.take(i + 1)[k].index == j);
    }
}

proof fn lemma_touched_empty(f0: CurrentFocus, clicked: Seq<Entity>, j: int)
    requires
        0 <= j <= usize::MAX,
    ensures
        touched(f0, clicked.take(0), j) == (f0.focused == Some(Entity { index: j as usize })),
{
    reveal(touched);
}

proof fn lemma_touched_all(f0: CurrentFocus, clicked: Seq<Entity>, j: int)
    ensures
        !touched(f0, clicked.take(clicked.len() as int), j) <== (f0.focused != Some(
            Entity { index: j as usize },
        ) && forall|k: int| 0 <= k < clicked.len() ==> (#[trigger] clicked[k]).index != j),
{
    reveal(touched);
    assert(clicked.take(clicked.len() as int) =~= clicked);
}

/// One click, with what it leaves untouched.
proof fn lemma_click_untouched(
    before: Seq<Option<EntityView>>,
    after: Seq<Option<EntityView>>,
    prev: Option<Entity>,
    f0: CurrentFocus,
    clicked: Seq<Entity>,
    i: int,
)
    requires
        0 <= i < clicked.len(),
        before.len() == after.len(),
        before.len() <= usize::MAX,
        prev matches Some(c) ==> touched(f0, clicked.take(i), c.index as int),
        forall|j: int|
            0 <= j < before.len() && j != clicked[i].index && prev != Some(
                Entity { index: j as usize },
            ) ==> #[trigger] after[j] == before[j],
    ensures
        forall|j: int|
            0 <= j < before.len() && !touched(f0, clicked.take(i + 1), j) ==> #[trigger] after[j]
                == before[j],
{
    assert forall|j: int|
        0 <= j < before.len() && !touched(f0, clicked.take(i + 1), j) implies #[trigger] after[j]
        == before[j] by {
        lemma_touched_step(f0, clicked, i, j);
        if prev == Some(Entity { index: j as usize }) {
            assert(touched(f0, clicked.take(i), j));
        }
    }
}

/// Handles the clicks of one frame, in order: each clicked entity that is
/// live and focusable takes the focus; others are ignored. The entity that
/// held the focus before and lost it reads unfocused; entities neither
/// clicked nor holding the focus before are left as they were.
pub fn mouse_focus(world: &mut Arena, current: &mut CurrentFocus, clicked: &Vec<Entity>)
    requires
        focus_exclusive(old(world)@, *old(current)),
    ensures
        focus_exclusive(final(world)@, *final(current)),
        final(world)@.len() == old(world)@.len(),
        forall|k: int|
            0 <= k < clicked@.len() && is_focusable(old(world)@, (#[trigger] clicked@[k]).index as int)
                && (forall|m: int| k < m < clicked@.len() ==> !is_focusable(old(world)@, #[trigger] clicked@[m].index as int))
                ==> final(current).focused == Some(clicked@[k]),
        (forall|k: int| 0 <= k < clicked@.len() ==> !is_focusable(old(world)@, (#[trigger] clicked@[k]).index as int))
            ==> final(world)@ == old(world)@ && *final(current) == *old(current),
        forall|j: int| 0 <= j < old(world)@.len() ==> #[trigger] is_focusable(final(world)@, j)
            == is_focusable(old(world)@, j),
        old(current).focused matches Some(p) ==> (final(current).focused != Some(p)
            ==> final(world)@[p.index as int].unwrap().plain.focusable == Some(Focusable::Unfocused)),
        forall|i: int|
            0 <= i < old(world)@.len() && old(current).focused != Some(Entity { index: i as usize })
                && (forall|k: int| 0 <= k < clicked@.len() ==> (#[trigger] clicked@[k]).index != i)
                ==> #[trigger] final(world)@[i] == old(world)@[i],
{
    let ghost a0 = world@;
    let ghost f0 = *current;
    proof {
        assert forall|j: int| 0 <= j < a0.len() && !touched(f0, clicked@.take(0), j) implies #[trigger] world@[j] == a0[j] by {}
        match f0.focused {
            Some(c) => {
                lemma_touched_empty(f0, clicked@, c.index as int);
            },
            None => {},
        }
    }
    let mut i: usize = 0;
    while i < clicked.len()
        invariant
            i <= clicked@.len(),
            focus_exclusive(world@, *current),
            world@.len() == a0.len(),
            a0.len() <= usize::MAX,
            forall|j: int| 0 <= j < a0.len() ==> #[trigger] is_focusable(world@, j) == is_focusable(a0, j),
            forall|k: int|
                0 <= k < i && is_focusable(a0, (#[trigger] clicked@[k]).index as int) && (forall|m: int|
                    k < m < i ==> !is_focusable(a0, #[trigger] clicked@[m].index as int))
                    ==> current.focused == Some(clicked@[k]),
            (forall|k: int| 0 <= k < i ==> !is_focusable(a0, (#[trigger] clicked@[k]).index as int))
                ==> world@ == a0 && *current == f0,
            current.focused matches Some(c) ==> touched(f0, clicked@.take(i as int), c.index as int),
            forall|j: int|
                0 <= j < a0.len() && !touched(f0, clicked@.take(i as int), j) ==> #[trigger] world@[j]
                    == a0[j],
        decreases clicked@.len() - i,
    {
        let e = clicked[i];
        let ghost before = world@;
        let ghost prev = current.focused;
        click(world, current, e);
        proof {
            lemma_click_untouched(before, world@, prev, f0, clicked@, i as int);
            assert forall|j: int|
                0 <= j < a0.len() && !touched(f0, clicked@.take(i + 1), j) implies #[trigger] world@[j]
                    == a0[j] by {
                lemma_touched_step(f0, clicked@, i as int, j);
                assert(world@[j] == before[j]);
            }
            match current.focused {
                Some(c) => {
                    lemma_touched_step(f0, clicked@, i as int, c.index as int);
                },
                None => {},
            }
        }
        i = i + 1;
    }
    proof {
        assert forall|j: int|
            0 <= j < a0.len() && f0.focused != Some(Entity { index: j as usize }) && (forall|k: int|
                0 <= k < clicked@.len() ==> (#[trigger] clicked@[k]).index != j) implies #[trigger] world@[j]
            == a0[j] by {
            lemma_touched_all(f0, clicked@, j);
        }
        match f0.focused {
            Some(p) => {
                assert(reads_focused(a0, p.index as int));
                if current.focused != Some(p) {
                    assert(Entity { index: p.index } == p);
                    assert(is_focusable(world@, p.index as int));
                    assert(!reads_focused(world@, p.index as int));
                }
            },
            None => {},
        }
    }
}

/// Keyboard focus handling: escape takes the focus away. (Moving the focus
/// with tab is not provided.)
pub fn tab_navigation(world: &mut Arena, current: &mut CurrentFocus, escape: bool)
    requires
        focus_exclusive(old(world)@, *old(current)),
    ensures
        focus_exclusive(final(world)@, *final(current)),
        escape ==> final(current).focused.is_none(),
        escape ==> (old(current).focused matches Some(p) ==> final(world)@ == with_focus_state(
            old(world)@,
            p.index as int,
            Focusable::Unfocused,
        )),
        escape && old(current).focused.is_none() ==> final(world)@ == old(world)@,
        !escape ==> final(world)@ == old(world)@ && *final(current) == *old(current),
{
    if escape {
        unfocus(world, current);
    }
}

/// Removes `e` from the arena; where it held the focus, the focus is cleared
/// first, so that the focus slot never names a removed entity.
pub fn despawn(world: &mut Arena, current: &mut CurrentFocus, e: Entity) -> (r: bool)
    requires
        focus_exclusive(old(world)@, *old(current)),
    ensures
        focus_exclusive(final(world)@, *final(current)),
        r == live(old(world)@, e),
        r ==> !live(final(world)@, e),
        old(current).focused == Some(e) ==> final(current).focused.is_none(),
        old(current).focused != Some(e) ==> *final(current) == *old(current),
{
    if current.focused == Some(e) {
        unfocus(world, current);
        proof {
            assert(reads_focused(old(world)@, e.index as int));
        }
    }
    let ghost a1 = world@;
    proof {
        assert(live(a1, e) == live(old(world)@, e));
    }
    let r = world.despawn(e);
    proof {
        assert forall|i: int| 0 <= i < world@.len() implies (#[trigger] reads_focused(world@, i)
            <==> current.focused == Some(Entity { index: i as usize })) by {
            if i != e.index {
                assert(world@[i] == a1[i]);
                assert(reads_focused(a1, i) == reads_focused(world@, i));
            } else if r {
                assert(!reads_focused(world@, i));
                assert(reads_focused(a1, i) ==> current.focused == Some(e));
            }
        }
    }
    r
}

/// Swaps the displayed material of `e` when its focus state has changed:
/// entering focus caches the displayed material and shows the focus
/// material; leaving it restores the cached one, once.
pub fn focus_material(world: &mut Arena, e: Entity)
    ensures
        final(world)@.len() == old(world)@.len(),
        forall|i: int| 0 <= i < old(world)@.len() && i != e.index ==> #[trigger] final(world)@[i] == old(world)@[i],
        live(old(world)@, e) ==> {
            let v = old(world)@[e.index as int].unwrap();
            let w = final(world)@[e.index as int].unwrap();
            &&& live(final(world)@, e)
            &&& w.plain.focusable == v.plain.focusable
            &&& match (v.plain.focus_material, v.plain.material, v.plain.focusable) {
                (Some(fm), Some(m), Some(Focusable::Focused)) => w.plain.material == Some(fm.material)
                    && w.plain.focus_material == Some(FocusMaterial { cache: Some(m), ..fm })
                    && w == (EntityView { plain: w.plain, ..v }),
                (Some(fm), Some(m), Some(Focusable::Unfocused)) => match fm.cache {
                    Some(c) => w.plain.material == Some(c) && w.plain.focus_material == Some(
                        FocusMaterial { cache: None, ..fm },
                    ) && w == (EntityView { plain: w.plain, ..v }),
                    None => w == v,
                },
                _ => w == v,
            }
        },
        !live(old(world)@, e) ==> final(world)@ == old(world)@,
{
    if !world.contains(e) {
        return;
    }
    let slot = world.take_slot(e.index);
    match slot {
        Some(mut d) => {
            let ghost v = d@;
            match (d.plain.focus_material, d.plain.material, d.plain.focusable) {
                (Some(fm), Some(m), Some(Focusable::Focused)) => {
                    d.plain.focus_material = Some(FocusMaterial { material: fm.material, cache: Some(m) });
                    d.plain.material = Some(fm.material);
                },
                (Some(fm), Some(_m), Some(Focusable::Unfocused)) => {
                    match fm.cache {
                        Some(c) => {
                            d.plain.material = Some(c);
                            d.plain.focus_material = Some(FocusMaterial { material: fm.material, cache: None });
                        },
                        None => {},
                    }
                },
                _ => {},
            }
            world.put_slot(e.index, Some(d));
        },
        None => {},
    }
}

} // verus!
