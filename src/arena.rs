//! The entity arena: slots of entities, each with an optional parent, an
//! ordered list of children and its components.
use vstd::prelude::*;
use crate::components::{
    Caret, Entity, EventButton, FocusMaterial, FocusPolicy, Focusable, Interaction, InputBox,
    ButtonMaterial, Plain, Style, Text, TextView,
};

verus! {

/// One live entity: hierarchy links and attached components.
pub struct EntityData {
    pub parent: Option<Entity>,
    pub children: Vec<Entity>,
    pub text: Option<Text>,
    pub plain: Plain,
    pub caret: Option<Caret>,
    pub input_box: Option<InputBox>,
    pub event_button: Option<EventButton>,
}

/// What an [`EntityData`] holds.
pub ghost struct EntityView {
    pub parent: Option<Entity>,
    pub children: Seq<Entity>,
    pub text: Option<TextView>,
    pub plain: Plain,
    pub caret: Option<Caret>,
    pub input_box: Option<InputBox>,
    pub event_button: Option<EventButton>,
}

pub open spec fn text_view(t: Option<Text>) -> Option<TextView> {
    match t {
        Some(x) => Some(x@),
        None => None,
    }
}

impl View for EntityData {
    type V = EntityView;

    open spec fn view(&self) -> EntityView {
        EntityView {
            parent: self.parent,
            children: self.children@,
            text: text_view(self.text),
            plain: self.plain,
            caret: self.caret,
            input_box: self.input_box,
            event_button: self.event_button,
        }
    }
}

/// An entity with nothing attached.
pub open spec fn empty_view() -> EntityView {
    EntityView {
        parent: None,
        children: Seq::empty(),
        text: None,
        plain: Plain::spec_empty(),
        caret: None,
        input_box: None,
        event_button: None,
    }
}

pub open spec fn slot_view(s: Option<EntityData>) -> Option<EntityView> {
    match s {
        Some(d) => Some(d@),
        None => None,
    }
}

/// A component value of any kind, for attaching.
pub enum Component {
    Text(Text),
    Style(Style),
    Focusable(Focusable),
    FocusMaterial(FocusMaterial),
    ButtonMaterial(ButtonMaterial),
    Interaction(Interaction),
    FocusPolicy(FocusPolicy),
    Visible(bool),
    Material(u64),
    Caret(Caret),
    InputBox(InputBox),
    EventButton(EventButton),
}

impl Component {
    /// A copy that attaches the same value.
    pub fn duplicate(&self) -> (r: Component)
        ensures
            forall|v: EntityView| attached(v, r) == attached(v, *self),
    {
        match self {
            Component::Text(t) => Component::Text(t.duplicate()),
            Component::Style(x) => Component::Style(*x),
            Component::Focusable(x) => Component::Focusable(*x),
            Component::FocusMaterial(x) => Component::FocusMaterial(*x),
            Component::ButtonMaterial(x) => Component::ButtonMaterial(*x),
            Component::Interaction(x) => Component::Interaction(*x),
            Component::FocusPolicy(x) => Component::FocusPolicy(*x),
            Component::Visible(x) => Component::Visible(*x),
            Component::Material(x) => Component::Material(*x),
            Component::Caret(x) => Component::Caret(*x),
            Component::InputBox(x) => Component::InputBox(*x),
            Component::EventButton(x) => Component::EventButton(*x),
        }
    }
}

/// `v` with `c` attached, replacing a component of the same kind.
pub open spec fn attached(v: EntityView, c: Component) -> EntityView {
    match c {
        Component::Text(t) => EntityView { text: Some(t@), ..v },
        Component::Style(x) => EntityView { plain: Plain { style: Some(x), ..v.plain }, ..v },
        Component::Focusable(x) => EntityView { plain: Plain { focusable: Some(x), ..v.plain }, ..v },
        Component::FocusMaterial(x) => EntityView {
            plain: Plain { focus_material: Some(x), ..v.plain },
            ..v
        },
        Component::ButtonMaterial(x) => EntityView {
            plain: Plain { button_material: Some(x), ..v.plain },
            ..v
        },
        Component::Interaction(x) => EntityView {
            plain: Plain { interaction: Some(x), ..v.plain },
            ..v
        },
        Component::FocusPolicy(x) => EntityView {
            plain: Plain { focus_policy: Some(x), ..v.plain },
            ..v
        },
        Component::Visible(x) => EntityView { plain: Plain { visible: Some(x), ..v.plain }, ..v },
        Component::Material(x) => EntityView { plain: Plain { material: Some(x), ..v.plain }, ..v },
        Component::Caret(x) => EntityView { caret: Some(x), ..v },
        Component::InputBox(x) => EntityView { input_box: Some(x), ..v },
        Component::EventButton(x) => EntityView { event_button: Some(x), ..v },
    }
}

/// `v` with each of `cs` attached in order.
pub open spec fn attached_all(v: EntityView, cs: Seq<Component>) -> EntityView
    decreases cs.len(),
{
    if cs.len() == 0 {
        v
    } else {
        attached(attached_all(v, cs.drop_last()), cs.last())
    }
}

/// Copies a list of identities.
pub fn copy_entities(v: &Vec<Entity>) -> (r: Vec<Entity>)
    ensures
        r@ == v@,
{
    let mut r: Vec<Entity> = Vec::new();
    let mut i: usize = 0;
    while i < v.len()
        invariant
            i <= v@.len(),
            r@ == v@.take(i as int),
        decreases v@.len() - i,
    {
        r.push(v[i]);
        i = i + 1;
        proof {
            assert(r@ =~= v@.take(i as int));
        }
    }
    proof {
        assert(v@.take(v@.len() as int) =~= v@);
    }
    r
}

impl EntityData {
    pub fn empty() -> (r: EntityData)
        ensures
            r@ == empty_view(),
    {
        EntityData {
            parent: None,
            children: Vec::new(),
            text: None,
            plain: Plain::empty(),
            caret: None,
            input_box: None,
            event_button: None,
        }
    }

    /// A copy of every component, references included as they are.
    pub fn duplicate(&self) -> (r: EntityData)
        ensures
            r@ == self@,
    {
        let text = match &self.text {
            Some(t) => Some(t.duplicate()),
            None => None,
        };
        EntityData {
            parent: self.parent,
            children: copy_entities(&self.children),
            text,
            plain: self.plain,
            caret: self.caret,
            input_box: self.input_box,
            event_button: self.event_button,
        }
    }

    /// Attaches `c`, replacing a component of the same kind.
    pub fn attach(&mut self, c: Component)
        ensures
            final(self)@ == attached(old(self)@, c),
    {
        match c {
            Component::Text(t) => self.text = Some(t),
            Component::Style(x) => self.plain.style = Some(x),
            Component::Focusable(x) => self.plain.focusable = Some(x),
            Component::FocusMaterial(x) => self.plain.focus_material = Some(x),
            Component::ButtonMaterial(x) => self.plain.button_material = Some(x),
            Component::Interaction(x) => self.plain.interaction = Some(x),
            Component::FocusPolicy(x) => self.plain.focus_policy = Some(x),
            Component::Visible(x) => self.plain.visible = Some(x),
            Component::Material(x) => self.plain.material = Some(x),
            Component::Caret(x) => self.caret = Some(x),
            Component::InputBox(x) => self.input_box = Some(x),
            Component::EventButton(x) => self.event_button = Some(x),
        }
    }
}

/// Errors of composition that abort the step they occur in.
#[derive(Clone, Copy, PartialEq, Eq, Structural, Debug)]
pub enum WidgetError {
    /// An entity that does not exist in the arena in use was addressed.
    MissingEntity(Entity),
    /// Widgets of different builders were composed together.
    CrossArenaComposition,
}

/// A container of entities and their components.
pub struct Arena {
    pub slots: Vec<Option<EntityData>>,
}

impl View for Arena {
    type V = Seq<Option<EntityView>>;

    open spec fn view(&self) -> Seq<Option<EntityView>> {
        self.slots@.map_values(|s: Option<EntityData>| slot_view(s))
    }
}

/// `e` names a live entity of `a`.
pub open spec fn live(a: Seq<Option<EntityView>>, e: Entity) -> bool {
    e.index < a.len() && a[e.index as int].is_some()
}

impl Arena {
    pub fn new() -> (r: Arena)
        ensures
            r@ == Seq::<Option<EntityView>>::empty(),
    {
        let r = Arena { slots: Vec::new() };
        proof {
            assert(r@ =~= Seq::<Option<EntityView>>::empty());
        }
        r
    }

    pub fn len(&self) -> (r: usize)
        ensures
            r == self@.len(),
    {
        self.slots.len()
    }

    /// Whether `e` names a live entity here.
    pub fn contains(&self, e: Entity) -> (r: bool)
        ensures
            r == live(self@, e),
    {
        e.index < self.slots.len() && self.slots[e.index].is_some()
    }

    /// Adds an entity with nothing attached and returns its identity.
    pub fn spawn(&mut self) -> (r: Entity)
        ensures
            final(self)@ == old(self)@.push(Some(empty_view())),
            r.index == old(self)@.len(),
    {
        let r = Entity { index: self.slots.len() };
        self.slots.push(Some(EntityData::empty()));
        proof {
            assert(self@ =~= old(self)@.push(Some(empty_view())));
        }
        r
    }

    /// Adds a slot holding `s` as it is.
    pub fn push_slot(&mut self, s: Option<EntityData>)
        ensures
            final(self)@ == old(self)@.push(slot_view(s)),
    {
        self.slots.push(s);
        proof {
            assert(self@ =~= old(self)@.push(slot_view(s)));
        }
    }

    /// Takes the slot of `i` out, leaving it empty.
    pub fn take_slot(&mut self, i: usize) -> (r: Option<EntityData>)
        requires
            i < old(self)@.len(),
        ensures
            slot_view(r) == old(self)@[i as int],
            final(self)@ == old(self)@.update(i as int, None),
    {
        let mut taken: Option<EntityData> = None;
        std::mem::swap(&mut self.slots[i], &mut taken);
        proof {
            assert(self@ =~= old(self)@.update(i as int, None));
        }
        taken
    }

    /// Puts `s` into the slot of `i`.
    pub fn put_slot(&mut self, i: usize, s: Option<EntityData>)
        requires
            i < old(self)@.len(),
        ensures
            final(self)@ == old(self)@.update(i as int, slot_view(s)),
    {
        self.slots.set(i, s);
        proof {
            assert(self@ =~= old(self)@.update(i as int, slot_view(s)));
        }
    }

    /// The entity `e`, where it is live.
    pub fn get(&self, e: Entity) -> (r: Option<&EntityData>)
        ensures
            r.is_some() == live(self@, e),
            r.is_some() ==> r.unwrap()@ == self@[e.index as int].unwrap(),
    {
        if e.index < self.slots.len() {
            match &self.slots[e.index] {
                Some(d) => Some(d),
                None => None,
            }
        } else {
            None
        }
    }

    /// Attaches each of `cs`, in order, to `e`; fails where `e` is not live.
    pub fn insert_bundle(&mut self, e: Entity, cs: Vec<Component>) -> (r: Result<(), WidgetError>)
        ensures
            r.is_ok() == live(old(self)@, e),
            r.is_ok() ==> final(self)@ == old(self)@.update(
                e.index as int,
                Some(attached_all(old(self)@[e.index as int].unwrap(), cs@)),
            ),
            r.is_err() ==> final(self)@ == old(self)@ && r == Err::<(), WidgetError>(
                WidgetError::MissingEntity(e),
            ),
    {
        if !self.contains(e) {
            return Err(WidgetError::MissingEntity(e));
        }
        let ghost a = self@;
        let slot = self.take_slot(e.index);
        let mut d = match slot {
            Some(d) => d,
            None => {
                return Err(WidgetError::MissingEntity(e));
            },
        };
        let ghost v = d@;
        let ghost all = cs@;
        let mut cs = cs;
        let n = cs.len();
        let mut i: usize = 0;
        while i < n
            invariant
                i <= n,
                n == all.len(),
                cs@ == all.skip(i as int),
                d@ == attached_all(v, all.take(i as int)),
            decreases n - i,
        {
            let c = cs.remove(0);
            proof {
                assert(all.take(i + 1).drop_last() =~= all.take(i as int));
                assert(all.take(i + 1).last() == c);
                assert(cs@ =~= all.skip(i + 1));
            }
            d.attach(c);
            i = i + 1;
        }
        proof {
            assert(all.take(n as int) =~= all);
            assert(self@.update(e.index as int, Some(attached_all(v, all))) =~= a.update(
                e.index as int,
                Some(attached_all(v, all)),
            ));
        }
        self.put_slot(e.index, Some(d));
        Ok(())
    }

    /// The children of `e` in order; none where `e` is not live.
    pub fn children_of(&self, e: Entity) -> (r: Vec<Entity>)
        ensures
            live(self@, e) ==> r@ == self@[e.index as int].unwrap().children,
            !live(self@, e) ==> r@ == Seq::<Entity>::empty(),
    {
        if e.index < self.slots.len() {
            match &self.slots[e.index] {
                Some(d) => {
                    return copy_entities(&d.children);
                },
                None => {},
            }
        }
        Vec::new()
    }

    /// Removes the entity `e`; its slot stays empty.
    pub fn despawn(&mut self, e: Entity) -> (r: bool)
        ensures
            r == live(old(self)@, e),
            r ==> final(self)@ == old(self)@.update(e.index as int, None),
            !r ==> final(self)@ == old(self)@,
    {
        if self.contains(e) {
            self.take_slot(e.index);
            true
        } else {
            false
        }
    }

    /// Attaches `c` to `e`; fails where `e` is not live.
    pub fn insert(&mut self, e: Entity, c: Component) -> (r: Result<(), WidgetError>)
        ensures
            r.is_ok() == live(old(self)@, e),
            r.is_ok() ==> final(self)@ == old(self)@.update(
                e.index as int,
                Some(attached(old(self)@[e.index as int].unwrap(), c)),
            ),
            r.is_err() ==> final(self)@ == old(self)@ && r == Err::<(), WidgetError>(
                WidgetError::MissingEntity(e),
            ),
    {
        if !self.contains(e) {
            return Err(WidgetError::MissingEntity(e));
        }
        let slot = self.take_slot(e.index);
        match slot {
            Some(mut d) => {
                d.attach(c);
                self.put_slot(e.index, Some(d));
                proof {
                    assert(self@ =~= old(self)@.update(
                        e.index as int,
                        Some(attached(old(self)@[e.index as int].unwrap(), c)),
                    ));
                }
                Ok(())
            },
            None => Err(WidgetError::MissingEntity(e)),
        }
    }
}

/// `s` without any occurrence of `e`, order kept.
pub open spec fn without(s: Seq<Entity>, e: Entity) -> Seq<Entity>
    decreases s.len(),
{
    if s.len() == 0 {
        s
    } else if s.last() == e {
        without(s.drop_last(), e)
    } else {
        without(s.drop_last(), e).push(s.last())
    }
}

/// Removes every occurrence of `e` from `v`.
pub fn remove_entity(v: &Vec<Entity>, e: Entity) -> (r: Vec<Entity>)
    ensures
        r@ == without(v@, e),
{
    let mut r: Vec<Entity> = Vec::new();
    let mut i: usize = 0;
    while i < v.len()
        invariant
            i <= v@.len(),
            r@ == without(v@.take(i as int), e),
        decreases v@.len() - i,
    {
        proof {
            assert(v@.take(i + 1).drop_last() =~= v@.take(i as int));
        }
        if v[i] != e {
            r.push(v[i]);
        }
        i = i + 1;
    }
    proof {
        assert(v@.take(v@.len() as int) =~= v@);
    }
    r
}

/// The arena after `c` is made the last child of `p`, leaving the list of
/// the parent it had before.
pub open spec fn adopted(a: Seq<Option<EntityView>>, p: Entity, c: Entity) -> Seq<
    Option<EntityView>,
> {
    let a1 = match a[c.index as int].unwrap().parent {
        Some(op) => if live(a, op) {
            a.update(
                op.index as int,
                Some(
                    EntityView {
                        children: without(a[op.index as int].unwrap().children, c),
                        ..a[op.index as int].unwrap()
                    },
                ),
            )
        } else {
            a
        },
        None => a,
    };
    let pv = a1[p.index as int].unwrap();
    let a2 = a1.update(
        p.index as int,
        Some(EntityView { children: without(pv.children, c).push(c), ..pv }),
    );
    a2.update(c.index as int, Some(EntityView { parent: Some(p), ..a2[c.index as int].unwrap() }))
}

/// The arena after each of `cs`, in order, is made a child of `p`.
pub open spec fn adopted_all(a: Seq<Option<EntityView>>, p: Entity, cs: Seq<Entity>) -> Seq<
    Option<EntityView>,
>
    decreases cs.len(),
{
    if cs.len() == 0 {
        a
    } else {
        adopted(adopted_all(a, p, cs.drop_last()), p, cs.last())
    }
}

/// The same slots are live in both arenas.
pub open spec fn same_live(a: Seq<Option<EntityView>>, b: Seq<Option<EntityView>>) -> bool {
    a.len() == b.len() && forall|i: int| 0 <= i < a.len() ==> (#[trigger] a[i].is_some() == b[i].is_some())
}

pub proof fn lemma_adopted_live(a: Seq<Option<EntityView>>, p: Entity, c: Entity)
    requires
        live(a, p),
        live(a, c),
    ensures
        same_live(a, adopted(a, p, c)),
{
}

/// Adopting live entities keeps the same slots live.
pub proof fn lemma_adopted_all_live(a: Seq<Option<EntityView>>, p: Entity, cs: Seq<Entity>)
    requires
        live(a, p),
        forall|k: int| 0 <= k < cs.len() ==> live(a, #[trigger] cs[k]),
    ensures
        same_live(a, adopted_all(a, p, cs)),
    decreases cs.len(),
{
    if cs.len() > 0 {
        let init = cs.drop_last();
        assert forall|k: int| 0 <= k < init.len() implies live(a, #[trigger] init[k]) by {
            assert(init[k] == cs[k]);
        }
        lemma_adopted_all_live(a, p, init);
        let b = adopted_all(a, p, init);
        assert(live(a, cs.last()));
        lemma_adopted_live(b, p, cs.last());
    }
}

impl Arena {
    /// Makes `c` the last child of `p`.
    fn adopt(&mut self, p: Entity, c: Entity)
        requires
            live(old(self)@, p),
            live(old(self)@, c),
        ensures
            final(self)@ == adopted(old(self)@, p, c),
            same_live(old(self)@, final(self)@),
    {
        let ghost a = self@;
        let cd = self.take_slot(c.index);
        let cd = match cd {
            Some(d) => d,
            None => {
                proof {
                    assert(false);
                }
                EntityData::empty()
            },
        };
        let old_parent = cd.parent;
        self.put_slot(c.index, Some(cd));
        proof {
            assert(self@ =~= a);
        }
        match old_parent {
            Some(op) => {
                if self.contains(op) {
                    let od = self.take_slot(op.index);
                    match od {
                        Some(mut d) => {
                            d.children = remove_entity(&d.children, c);
                            self.put_slot(op.index, Some(d));
                        },
                        None => {},
                    }
                }
            },
            None => {},
        }
        let ghost a1 = self@;
        let pd = self.take_slot(p.index);
        match pd {
            Some(mut d) => {
                let mut kids = remove_entity(&d.children, c);
                kids.push(c);
                d.children = kids;
                self.put_slot(p.index, Some(d));
            },
            None => {},
        }
        let ghost a2 = self@;
        let cd = self.take_slot(c.index);
        match cd {
            Some(mut d) => {
                d.parent = Some(p);
                self.put_slot(c.index, Some(d));
            },
            None => {},
        }
        proof {
            assert(self@ =~= adopted(a, p, c));
        }
    }

    /// Appends `children`, in order, to the children of `parent`; each one
    /// leaves the list of the parent it had before. Fails, changing nothing,
    /// where `parent` or one of `children` is not live.
    pub fn push_children(&mut self, parent: Entity, children: &Vec<Entity>) -> (r: Result<
        (),
        WidgetError,
    >)
        ensures
            r.is_ok() == (live(old(self)@, parent) && forall|k: int|
                0 <= k < children@.len() ==> live(old(self)@, #[trigger] children@[k])),
            r.is_ok() ==> final(self)@ == adopted_all(old(self)@, parent, children@),
            r.is_err() ==> final(self)@ == old(self)@,
            r.is_err() ==> (r == Err::<(), WidgetError>(WidgetError::MissingEntity(parent))
                && !live(old(self)@, parent)) || exists|k: int|
                0 <= k < children@.len() && !live(old(self)@, #[trigger] children@[k]) && r
                    == Err::<(), WidgetError>(WidgetError::MissingEntity(children@[k])),
    {
        if !self.contains(parent) {
            return Err(WidgetError::MissingEntity(parent));
        }
        let mut i: usize = 0;
        while i < children.len()
            invariant
                i <= children@.len(),
                forall|k: int| 0 <= k < i ==> live(self@, #[trigger] children@[k]),
            decreases children@.len() - i,
        {
            if !self.contains(children[i]) {
                return Err(WidgetError::MissingEntity(children[i]));
            }
            i = i + 1;
        }
        let ghost a = self@;
        let mut j: usize = 0;
        while j < children.len()
            invariant
                j <= children@.len(),
                self@ == adopted_all(a, parent, children@.take(j as int)),
                same_live(a, self@),
                live(a, parent),
                forall|k: int| 0 <= k < children@.len() ==> live(a, #[trigger] children@[k]),
            decreases children@.len() - j,
        {
            proof {
                assert(children@.take(j + 1).drop_last() =~= children@.take(j as int));
                assert(live(a, children@[j as int]));
            }
            self.adopt(parent, children[j]);
            j = j + 1;
        }
        proof {
            assert(children@.take(children@.len() as int) =~= children@);
        }
        Ok(())
    }
}

} // verus!
