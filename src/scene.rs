//! Templates and grafting: copying a template's entities into another arena
//! under fresh identities, with every internal reference rewritten.
use vstd::prelude::*;
use crate::arena::{live, Arena, EntityData, EntityView};
use crate::components::{shift, Caret, Entity, EntityMap, EventButton, InputBox, MapEntitiesError};

verus! {

/// A finished graph, only ever copied from.
pub struct Scene {
    pub world: Arena,
}

/// Why a graft failed.
#[derive(Clone, Copy, PartialEq, Eq, Structural, Debug)]
pub enum GraftError {
    /// The template has no parent-less entity, or more than one.
    EmptyTemplate,
    /// A reference inside the template names an entity outside it.
    DanglingReference,
}

/// Every entity reference held by `v` satisfies `p`.
pub open spec fn refs_satisfy(v: EntityView, p: spec_fn(Entity) -> bool) -> bool {
    &&& (v.parent matches Some(x) ==> p(x))
    &&& forall|k: int| 0 <= k < v.children.len() ==> p(#[trigger] v.children[k])
    &&& (v.caret matches Some(c) ==> p(c.text))
    &&& (v.input_box matches Some(b) ==> p(b.text) && p(b.caret))
    &&& (v.event_button matches Some(b) ==> p(b.target))
}

/// Every reference held by a live entity of `t` names a live entity of `t`.
pub open spec fn self_contained(t: Seq<Option<EntityView>>) -> bool {
    forall|i: int|
        0 <= i < t.len() && #[trigger] t[i].is_some() ==> refs_satisfy(
            t[i].unwrap(),
            |e: Entity| live(t, e),
        )
}

/// Slot `i` of `t` holds a live entity without a parent.
pub open spec fn is_root(t: Seq<Option<EntityView>>, i: int) -> bool {
    0 <= i < t.len() && t[i].is_some() && t[i].unwrap().parent.is_none()
}

/// Exactly one live entity of `t` has no parent.
pub open spec fn has_unique_root(t: Seq<Option<EntityView>>) -> bool {
    exists|r: int| is_root(t, r) && forall|j: int| #[trigger] is_root(t, j) ==> j == r
}

/// `v` with every reference `e` replaced by `f(e)`.
pub open spec fn renamed(v: EntityView, f: spec_fn(Entity) -> Entity) -> EntityView {
    EntityView {
        parent: match v.parent {
            Some(p) => Some(f(p)),
            None => None,
        },
        children: v.children.map_values(f),
        caret: match v.caret {
            Some(c) => Some(Caret { text: f(c.text), ..c }),
            None => None,
        },
        input_box: match v.input_box {
            Some(b) => Some(InputBox { text: f(b.text), caret: f(b.caret) }),
            None => None,
        },
        event_button: match v.event_button {
            Some(b) => Some(EventButton { target: f(b.target), ..b }),
            None => None,
        },
        ..v
    }
}

/// `v` with every reference moved up by `base` slots.
pub open spec fn shifted(v: EntityView, base: int) -> EntityView {
    renamed(v, |e: Entity| shift(e, base))
}

pub open spec fn shifted_slot(s: Option<EntityView>, base: int) -> Option<EntityView> {
    match s {
        Some(v) => Some(shifted(v, base)),
        None => None,
    }
}

/// The copy of the template `t` that a graft places at slot `base` onward.
pub open spec fn shifted_all(t: Seq<Option<EntityView>>, base: int) -> Seq<Option<EntityView>> {
    t.map_values(|s: Option<EntityView>| shifted_slot(s, base))
}

/// The identity map of grafting `t` at slot `base`.
pub open spec fn graft_map(t: Seq<Option<EntityView>>, base: int) -> Seq<Option<Entity>> {
    Seq::new(
        t.len(),
        |i: int|
            if t[i].is_some() {
                Some(Entity { index: (base + i) as usize })
            } else {
                None
            },
    )
}

/// `new` is `old` with a copy of the template `t` grafted after it, and
/// `root` is the copy of the template's root.
#[verifier::opaque]
pub open spec fn grafted(
    old: Seq<Option<EntityView>>,
    t: Seq<Option<EntityView>>,
    new: Seq<Option<EntityView>>,
    root: Entity,
) -> bool {
    &&& has_unique_root(t)
    &&& self_contained(t)
    &&& old.len() + t.len() <= usize::MAX
    &&& new == old + shifted_all(t, old.len() as int)
    &&& root.index >= old.len()
    &&& is_root(t, root.index - old.len())
}

/// Rewrites every identity of `v` through `map`.
fn map_children(v: &Vec<Entity>, map: &EntityMap) -> (r: Result<Vec<Entity>, MapEntitiesError>)
    ensures
        r.is_ok() == forall|k: int| 0 <= k < v@.len() ==> map.resolves(#[trigger] v@[k]),
        r.is_ok() ==> r.unwrap()@ == v@.map_values(|e: Entity| map.image(e)),
{
    let mut out: Vec<Entity> = Vec::new();
    let mut i: usize = 0;
    while i < v.len()
        invariant
            i <= v@.len(),
            forall|k: int| 0 <= k < i ==> map.resolves(#[trigger] v@[k]),
            out@ == v@.take(i as int).map_values(|e: Entity| map.image(e)),
        decreases v@.len() - i,
    {
        let n = map.get(v[i])?;
        out.push(n);
        i = i + 1;
        proof {
            assert(out@ =~= v@.take(i as int).map_values(|e: Entity| map.image(e)));
        }
    }
    proof {
        assert(v@.take(v@.len() as int) =~= v@);
    }
    Ok(out)
}

/// Rewrites every reference held by `d` through `map`: the hierarchy links
/// and each component kind that holds references.
pub fn map_entity(d: EntityData, map: &EntityMap) -> (r: Result<EntityData, MapEntitiesError>)
    ensures
        r.is_ok() == refs_satisfy(d@, |e: Entity| map.resolves(e)),
        r.is_ok() ==> r.unwrap()@ == renamed(d@, |e: Entity| map.image(e)),
{
    let mut d = d;
    let ghost v = d@;
    let parent = match d.parent {
        Some(p) => Some(map.get(p)?),
        None => None,
    };
    let children = map_children(&d.children, map)?;
    let caret = match d.caret {
        Some(mut c) => {
            c.map_entities(map)?;
            Some(c)
        },
        None => None,
    };
    let input_box = match d.input_box {
        Some(mut b) => {
            b.map_entities(map)?;
            Some(b)
        },
        None => None,
    };
    let event_button = match d.event_button {
        Some(mut b) => {
            b.map_entities(map)?;
            Some(b)
        },
        None => None,
    };
    d.parent = parent;
    d.children = children;
    d.caret = caret;
    d.input_box = input_box;
    d.event_button = event_button;
    proof {
        assert(d@ == renamed(v, |e: Entity| map.image(e)));
    }
    Ok(d)
}

/// Index of the single live parent-less entity of `t`, if there is exactly one.
fn find_root(t: &Arena) -> (r: Option<usize>)
    ensures
        r.is_some() == has_unique_root(t@),
        r.is_some() ==> is_root(t@, r.unwrap() as int),
{
    let mut found: Option<usize> = None;
    let mut i: usize = 0;
    while i < t.slots.len()
        invariant
            i <= t@.len(),
            found.is_none() ==> forall|j: int| 0 <= j < i ==> !is_root(t@, j),
            found.is_some() ==> found.unwrap() < i && is_root(t@, found.unwrap() as int) && forall|
                j: int,
            | 0 <= j < i && is_root(t@, j) ==> j == found.unwrap(),
        decreases t@.len() - i,
    {
        let here = match &t.slots[i] {
            Some(d) => d.parent.is_none(),
            None => false,
        };
        proof {
            assert(here == is_root(t@, i as int));
        }
        if here {
            if found.is_some() {
                proof {
                    let a = found.unwrap() as int;
                    if has_unique_root(t@) {
                        let r = choose|r: int|
                            is_root(t@, r) && forall|j: int| #[trigger] is_root(t@, j) ==> j == r;
                        assert(a == r);
                        assert(i as int == r);
                    }
                }
                return None;
            }
            found = Some(i);
        }
        i = i + 1;
    }
    proof {
        if found.is_some() {
            assert(forall|j: int| #[trigger] is_root(t@, j) ==> j == found.unwrap());
        }
    }
    found
}

/// Under the identity map of a graft at `base`, an entity resolves exactly
/// when it is live in the template, and maps to its shifted identity.
proof fn lemma_graft_map(t: Seq<Option<EntityView>>, base: int, map: EntityMap, v: EntityView)
    requires
        map@ == graft_map(t, base),
        base >= 0,
        base + t.len() <= usize::MAX,
    ensures
        forall|e: Entity| #[trigger] map.resolves(e) == live(t, e),
        forall|e: Entity| live(t, e) ==> #[trigger] map.image(e) == shift(e, base),
        refs_satisfy(v, |e: Entity| map.resolves(e)) == refs_satisfy(v, |e: Entity| live(t, e)),
        refs_satisfy(v, |e: Entity| live(t, e)) ==> renamed(v, |e: Entity| map.image(e))
            == shifted(v, base),
{
    if refs_satisfy(v, |e: Entity| live(t, e)) {
        let a = renamed(v, |e: Entity| map.image(e));
        let b = shifted(v, base);
        assert(a.children =~= b.children);
    }
}

/// Grafts a copy of `scene` into `world`: every entity of the template gets
/// a new identity, every component is copied, and then every reference is
/// rewritten to the new identities; last, the root is resolved. Returns the
/// copy of the template's root. A template that refers outside itself fails
/// with `DanglingReference`; one that does not, but has no parent-less
/// entity or more than one, fails with `EmptyTemplate`. On failure nothing
/// is added.
pub fn spawn_scene(world: &mut Arena, scene: &Scene) -> (r: Result<Entity, GraftError>)
    requires
        old(world)@.len() + scene.world@.len() <= usize::MAX,
    ensures
        (r == Err::<Entity, GraftError>(GraftError::DanglingReference)) == !self_contained(
            scene.world@,
        ),
        (r == Err::<Entity, GraftError>(GraftError::EmptyTemplate)) == (self_contained(
            scene.world@,
        ) && !has_unique_root(scene.world@)),
        r.is_err() ==> final(world)@ == old(world)@,
        r.is_ok() ==> grafted(old(world)@, scene.world@, final(world)@, r.unwrap()),
{
    let ghost t = scene.world@;
    let ghost w0 = world@;
    let base = world.len();
    let n = scene.world.len();
    // Copy every entity as it is, and record where each one went.
    let mut map = EntityMap::new();
    let mut i: usize = 0;
    while i < n
        invariant
            i <= n,
            n == t.len(),
            t == scene.world@,
            base == w0.len(),
            base + n <= usize::MAX,
            world@ == w0 + t.take(i as int),
            map@ == graft_map(t, base as int).take(i as int),
            w0 == old(world)@,
        decreases n - i,
    {
        match &scene.world.slots[i] {
            Some(d) => {
                world.push_slot(Some(d.duplicate()));
                map.entries.push(Some(Entity { index: base + i }));
            },
            None => {
                world.push_slot(None);
                map.entries.push(None);
            },
        }
        i = i + 1;
        proof {
            assert(world@ =~= w0 + t.take(i as int));
            assert(map@ =~= graft_map(t, base as int).take(i as int));
        }
    }
    proof {
        assert(t.take(n as int) =~= t);
        assert(graft_map(t, base as int).take(n as int) =~= graft_map(t, base as int));
    }
    // Rewrite the references of every copy through the identity map.
    let mut j: usize = 0;
    while j < n
        invariant
            j <= n,
            n == t.len(),
            t == scene.world@,
            base == w0.len(),
            base + n <= usize::MAX,
            map@ == graft_map(t, base as int),
            w0 == old(world)@,
            world@.len() == base + n,
            world@.take(base as int) == w0,
            forall|k: int| 0 <= k < j ==> world@[base + k] == shifted_slot(t[k], base as int),
            forall|k: int| j <= k < n ==> world@[base + k] == t[k],
            forall|k: int|
                0 <= k < j && #[trigger] t[k].is_some() ==> refs_satisfy(
                    t[k].unwrap(),
                    |e: Entity| live(t, e),
                ),
        decreases n - j,
    {
        let slot = world.take_slot(base + j);
        match slot {
            Some(d) => {
                proof {
                    lemma_graft_map(t, base as int, map, d@);
                }
                match map_entity(d, &map) {
                    Ok(nd) => {
                        world.put_slot(base + j, Some(nd));
                    },
                    Err(_) => {
                        let ghost before = world@;
                        proof {
                            assert(before.take(base as int) =~= w0);
                        }
                        world.slots.truncate(base);
                        proof {
                            assert(world@ =~= before.take(base as int));

                            assert(!refs_satisfy(t[j as int].unwrap(), |e: Entity| live(t, e)));
                            assert(!self_contained(t));
                        }
                        return Err(GraftError::DanglingReference);
                    },
                }
            },
            None => {
                world.put_slot(base + j, None);
            },
        }
        proof {
            assert(world@.take(base as int) =~= w0);
        }
        j = j + 1;
    }
    proof {
        assert(self_contained(t));
    }
    // Resolve the root: the copies have parents exactly where the template does.
    let root = match find_root(&scene.world) {
        Some(i) => i,
        None => {
            let ghost before = world@;
            proof {
                assert(before.take(base as int) =~= w0);
            }
            world.slots.truncate(base);
            proof {
                assert(world@ =~= before.take(base as int));
            }
            return Err(GraftError::EmptyTemplate);
        },
    };
    proof {
        assert(world@ =~= w0 + shifted_all(t, base as int));
        reveal(grafted);
    }
    Ok(Entity { index: base + root })
}

/// Renaming carries a property of every reference over to the renamed references.
pub proof fn lemma_refs_renamed(
    v: EntityView,
    f: spec_fn(Entity) -> Entity,
    p: spec_fn(Entity) -> bool,
    q: spec_fn(Entity) -> bool,
)
    requires
        refs_satisfy(v, p),
        forall|e: Entity| #[trigger] p(e) ==> q(f(e)),
    ensures
        refs_satisfy(renamed(v, f), q),
{
    let w = renamed(v, f);
    assert forall|k: int| 0 <= k < w.children.len() implies q(#[trigger] w.children[k]) by {
        assert(p(v.children[k]));
    }
}

/// Grafting a template into an empty arena reproduces the template: the
/// same live entities, the same parents and ordered children, the same
/// component values, entity `i` of the template becoming entity `i`.
pub proof fn lemma_graft_round_trip(
    t: Seq<Option<EntityView>>,
    new: Seq<Option<EntityView>>,
    root: Entity,
)
    requires
        grafted(Seq::empty(), t, new, root),
    ensures
        new == t,
        is_root(new, root.index as int),
{
    reveal(grafted);
    assert forall|i: int| 0 <= i < t.len() implies #[trigger] new[i] == t[i] by {
        assert(new[i] == shifted_slot(t[i], 0));
        if t[i].is_some() {
            let v = t[i].unwrap();
            assert(shifted(v, 0).children =~= v.children);
        }
    }
    assert(new =~= t);
}

/// After a graft, every reference held by a copied entity names a live
/// entity of the destination, namely the copy of the entity that the
/// original reference named in the template.
pub proof fn lemma_graft_references(
    old: Seq<Option<EntityView>>,
    t: Seq<Option<EntityView>>,
    new: Seq<Option<EntityView>>,
    root: Entity,
)
    requires
        grafted(old, t, new, root),
    ensures
        live(new, root),
        forall|i: int|
            0 <= i < t.len() && #[trigger] t[i].is_some() ==> {
                &&& new[old.len() + i] == Some(shifted(t[i].unwrap(), old.len() as int))
                &&& refs_satisfy(
                    new[old.len() + i].unwrap(),
                    |e: Entity|
                        live(new, e) && old.len() <= e.index < old.len() + t.len() && live(
                            t,
                            Entity { index: (e.index - old.len()) as usize },
                        ) && new[e.index as int] == shifted_slot(
                            t[e.index - old.len()],
                            old.len() as int,
                        ),
                )
            },
{
    reveal(grafted);
    let base = old.len() as int;
    assert forall|i: int| 0 <= i < t.len() && #[trigger] t[i].is_some() implies {
        &&& new[base + i] == Some(shifted(t[i].unwrap(), base))
        &&& refs_satisfy(
            new[base + i].unwrap(),
            |e: Entity|
                live(new, e) && base <= e.index < base + t.len() && live(
                    t,
                    Entity { index: (e.index - base) as usize },
                ) && new[e.index as int] == shifted_slot(t[e.index - base], base),
        )
    } by {
        assert(new[base + i] == shifted_slot(t[i], base));
        let p = |e: Entity| live(t, e);
        let q = |e: Entity|
            live(new, e) && base <= e.index < base + t.len() && live(
                t,
                Entity { index: (e.index - base) as usize },
            ) && new[e.index as int] == shifted_slot(t[e.index - base], base);
        let f = |e: Entity| shift(e, base);
        assert forall|e: Entity| #[trigger] p(e) implies q(f(e)) by {
            assert(new[base + e.index] == shifted_slot(t[e.index as int], base));
            assert(Entity { index: (f(e).index - base) as usize } == e);
        }
        lemma_refs_renamed(t[i].unwrap(), f, p, q);
    }
    assert(new[root.index as int] == shifted_slot(t[root.index - base], base));
}

/// What a graft leaves where.
proof fn lemma_grafted_facts(
    old: Seq<Option<EntityView>>,
    t: Seq<Option<EntityView>>,
    new: Seq<Option<EntityView>>,
    root: Entity,
)
    requires
        grafted(old, t, new, root),
    ensures
        new.len() == old.len() + t.len(),
        forall|i: int| 0 <= i < old.len() ==> #[trigger] new[i] == old[i],
        forall|i: int|
            0 <= i < t.len() ==> new[old.len() + i] == shifted_slot(#[trigger] t[i], old.len() as int),
        root.index >= old.len(),
        is_root(t, root.index - old.len()),
        has_unique_root(t),
{
    reveal(grafted);
    assert forall|i: int| 0 <= i < t.len() implies new[old.len() + i] == shifted_slot(
        #[trigger] t[i],
        old.len() as int,
    ) by {
        assert(new[old.len() + i] == shifted_all(t, old.len() as int)[i]);
    }
}

/// The references of a copied entity stay within the copy.
proof fn lemma_copy_refs_within(
    old: Seq<Option<EntityView>>,
    t: Seq<Option<EntityView>>,
    new: Seq<Option<EntityView>>,
    root: Entity,
    i: int,
)
    requires
        grafted(old, t, new, root),
        0 <= i < t.len(),
        t[i].is_some(),
    ensures
        new[old.len() + i] == shifted_slot(t[i], old.len() as int),
        refs_satisfy(
            new[old.len() + i].unwrap(),
            |e: Entity| old.len() <= e.index < old.len() + t.len(),
        ),
{
    reveal(grafted);
    let b = old.len() as int;
    let v = t[i].unwrap();
    assert(new[b + i] == shifted_slot(t[i], b));
    assert(refs_satisfy(v, |e: Entity| live(t, e)));
    lemma_refs_renamed(
        v,
        |e: Entity| shift(e, b),
        |e: Entity| live(t, e),
        |e: Entity| b <= e.index < b + t.len(),
    );
}

/// Grafting one template twice gives two copies that are shaped alike,
/// occupy disjoint identities, and refer only within themselves; the first
/// copy is left as it was by the second graft.
pub proof fn lemma_graft_twice(
    w0: Seq<Option<EntityView>>,
    t: Seq<Option<EntityView>>,
    w1: Seq<Option<EntityView>>,
    r1: Entity,
    w2: Seq<Option<EntityView>>,
    r2: Entity,
)
    requires
        grafted(w0, t, w1, r1),
        grafted(w1, t, w2, r2),
    ensures
        w1.len() == w0.len() + t.len(),
        w2.take(w1.len() as int) == w1,
        r1 != r2,
        r1.index - w0.len() == r2.index - w1.len(),
        forall|i: int|
            0 <= i < t.len() ==> w2[w0.len() + i] == shifted_slot(#[trigger] t[i], w0.len() as int)
                && w2[w1.len() + i] == shifted_slot(t[i], w1.len() as int),
        forall|i: int|
            0 <= i < t.len() && #[trigger] t[i].is_some() ==> refs_satisfy(
                w2[w0.len() + i].unwrap(),
                |e: Entity| w0.len() <= e.index < w1.len(),
            ) && refs_satisfy(
                w2[w1.len() + i].unwrap(),
                |e: Entity| w1.len() <= e.index < w2.len(),
            ),
{
    let b1 = w0.len() as int;
    let b2 = w1.len() as int;
    lemma_grafted_facts(w0, t, w1, r1);
    lemma_grafted_facts(w1, t, w2, r2);
    assert(w2.take(b2) =~= w1);
    let r = choose|r: int| is_root(t, r) && forall|j: int| #[trigger] is_root(t, j) ==> j == r;
    assert forall|i: int| 0 <= i < t.len() implies w2[b1 + i] == shifted_slot(#[trigger] t[i], b1)
        && w2[b2 + i] == shifted_slot(t[i], b2) by {
        assert(w2[b1 + i] == w1[b1 + i]);
    }
    assert forall|i: int| 0 <= i < t.len() && #[trigger] t[i].is_some() implies refs_satisfy(
        w2[b1 + i].unwrap(),
        |e: Entity| b1 <= e.index < b2,
    ) && refs_satisfy(w2[b2 + i].unwrap(), |e: Entity| b2 <= e.index < w2.len()) by {
        lemma_copy_refs_within(w0, t, w1, r1, i);
        lemma_copy_refs_within(w1, t, w2, r2, i);
        assert(w2[b1 + i] == w1[b1 + i]);
    }
}

/// Removes every entity of `world`.
pub fn clear_scene(world: &mut Arena)
    ensures
        final(world)@.len() == old(world)@.len(),
        forall|i: int| 0 <= i < old(world)@.len() ==> (#[trigger] final(world)@[i]).is_none(),
{
    let n = world.len();
    let mut i: usize = 0;
    while i < n
        invariant
            i <= n,
            n == old(world)@.len(),
            world@.len() == n,
            forall|k: int| 0 <= k < i ==> (#[trigger] world@[k]).is_none(),
        decreases n - i,
    {
        world.take_slot(i);
        i = i + 1;
    }
}

/// First slot of the `i`-th copy when copies of `n` slots follow `w0len` slots.
pub open spec fn copy_base(w0len: nat, n: nat, i: int) -> int {
    w0len + i * n
}

/// Slot `k` of the copy that starts at `b`.
pub open spec fn copy_slot(w: Seq<Option<EntityView>>, b: int, k: int) -> Option<EntityView> {
    w[b + k]
}

proof fn lemma_copy_base_order(w0len: nat, n: nat, i: int, j: int)
    requires
        0 <= i < j,
    ensures
        copy_base(w0len, n, i) + n <= copy_base(w0len, n, j),
        copy_base(w0len, n, i + 1) == copy_base(w0len, n, i) + n,
{
    assert(i * n + n <= j * n) by (nonlinear_arith)
        requires
            0 <= i < j,
    ;
    assert((i + 1) * n == i * n + n) by (nonlinear_arith);
}

/// Grafting one template `roots.len()` times in a row, `ws[i]` being the
/// arena before the graft that returned `roots[i]`: the copies lie one after
/// another after the first arena, which is kept; each copy equals the
/// template with its references moved to that copy; each copy refers only
/// within itself; and the roots are pairwise distinct.
pub proof fn lemma_graft_repeated(
    t: Seq<Option<EntityView>>,
    ws: Seq<Seq<Option<EntityView>>>,
    roots: Seq<Entity>,
)
    requires
        ws.len() == roots.len() + 1,
        forall|i: int| 0 <= i < roots.len() ==> grafted(ws[i], t, ws[i + 1], #[trigger] roots[i]),
    ensures
        ws.last().len() == copy_base(ws[0].len(), t.len(), roots.len() as int),
        forall|j: int| 0 <= j < ws[0].len() ==> #[trigger] ws.last()[j] == ws[0][j],
        forall|i: int|
            0 <= i < roots.len() ==> copy_base(ws[0].len(), t.len(), i) <= (#[trigger] roots[i]).index
                < copy_base(ws[0].len(), t.len(), i) + t.len(),
        forall|i: int, j: int| 0 <= i < j < roots.len() ==> #[trigger] roots[i] != #[trigger] roots[j],
        forall|i: int, k: int|
            0 <= i < roots.len() && 0 <= k < t.len() ==> #[trigger] copy_slot(
                ws.last(),
                copy_base(ws[0].len(), t.len(), i),
                k,
            ) == shifted_slot(t[k], copy_base(ws[0].len(), t.len(), i)),
        forall|i: int, k: int|
            0 <= i < roots.len() && 0 <= k < t.len() && t[k].is_some() ==> refs_satisfy(
                #[trigger] copy_slot(ws.last(), copy_base(ws[0].len(), t.len(), i), k).unwrap(),
                |e: Entity|
                    copy_base(ws[0].len(), t.len(), i) <= e.index < copy_base(ws[0].len(), t.len(), i)
                        + t.len(),
            ),
    decreases roots.len(),
{
    let n = t.len();
    let w0 = ws[0];
    if roots.len() == 0 {
        assert(copy_base(w0.len(), n, 0) == w0.len());
    } else {
        let m = (roots.len() - 1) as int;
        let ws1 = ws.take(m + 1);
        let roots1 = roots.take(m);
        assert forall|i: int| 0 <= i < roots1.len() implies grafted(
            ws1[i],
            t,
            ws1[i + 1],
            #[trigger] roots1[i],
        ) by {
            assert(grafted(ws[i], t, ws[i + 1], roots[i]));
        }
        lemma_graft_repeated(t, ws1, roots1);
        assert(ws1.last() == ws[m]);
        assert(ws1[0] == w0);
        let prev = ws[m];
        let last = ws[m + 1];
        assert(ws.last() == last);
        assert(grafted(prev, t, last, roots[m]));
        lemma_grafted_facts(prev, t, last, roots[m]);
        let bm = copy_base(w0.len(), n, m);
        lemma_copy_base_order(w0.len(), n, m, m + 1);
        assert(prev.len() == bm);
        assert forall|i: int|
            0 <= i < roots.len() implies copy_base(w0.len(), n, i) <= (#[trigger] roots[i]).index
            < copy_base(w0.len(), n, i) + n by {
            if i < m {
                assert(roots1[i] == roots[i]);
            } else {
                reveal(grafted);
            }
        }
        assert forall|i: int, j: int| 0 <= i < j < roots.len() implies #[trigger] roots[i]
            != #[trigger] roots[j] by {
            lemma_copy_base_order(w0.len(), n, i, j);
        }
        assert forall|i: int, k: int|
            0 <= i < roots.len() && 0 <= k < n implies #[trigger] copy_slot(
            last,
            copy_base(w0.len(), n, i),
            k,
        ) == shifted_slot(t[k], copy_base(w0.len(), n, i)) && (t[k].is_some() ==> refs_satisfy(
            copy_slot(last, copy_base(w0.len(), n, i), k).unwrap(),
            |e: Entity| copy_base(w0.len(), n, i) <= e.index < copy_base(w0.len(), n, i) + n,
        )) by {
            let b = copy_base(w0.len(), n, i);
            if i < m {
                lemma_copy_base_order(w0.len(), n, i, m);
                assert(copy_slot(ws1.last(), b, k) == shifted_slot(t[k], b));
                assert(last[b + k] == prev[b + k]);
            } else {
                assert(b == bm);
                if t[k].is_some() {
                    lemma_copy_refs_within(prev, t, last, roots[m], k);
                }
            }
        }
        assert forall|j: int| 0 <= j < w0.len() implies #[trigger] last[j] == w0[j] by {
            assert(ws1.last()[j] == w0[j]);
            lemma_copy_base_order(w0.len(), n, 0, m + 1);
            assert(copy_base(w0.len(), n, 0) == w0.len());
        }
    }
}

} // verus!
