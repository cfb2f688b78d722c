//! Identities and the data that can be attached to them.
use vstd::prelude::*;

verus! {

/// Opaque handle naming one node of one arena.
#[derive(Clone, Copy, PartialEq, Eq, Structural, Debug, Hash)]
pub struct Entity {
    pub index: usize,
}

/// The entity `e` would name after its arena's contents moved up by `base` slots.
pub open spec fn shift(e: Entity, base: int) -> Entity {
    Entity { index: (e.index + base) as usize }
}

/// Colour as red, green, blue and alpha channels.
#[derive(Clone, Copy, PartialEq, Eq, Structural, Debug)]
pub struct Color {
    pub r: u8,
    pub g: u8,
    pub b: u8,
    pub a: u8,
}

/// Font handle, size and colour of a text.
#[derive(Clone, Copy, PartialEq, Eq, Structural, Debug)]
pub struct TextStyle {
    pub font: u64,
    pub font_size: u32,
    pub color: Color,
}

/// Text shown by an entity.
#[derive(Debug)]
pub struct Text {
    pub value: String,
    pub style: TextStyle,
}

/// What a [`Text`] holds, with its string as characters.
pub ghost struct TextView {
    pub value: Seq<char>,
    pub style: TextStyle,
}

impl View for Text {
    type V = TextView;

    open spec fn view(&self) -> TextView {
        TextView { value: self.value@, style: self.style }
    }
}

impl Text {
    pub fn duplicate(&self) -> (r: Text)
        ensures
            r@ == self@,
    {
        Text { value: self.value.clone(), style: self.style }
    }
}

/// Direction in which a container lays out its children.
#[derive(Clone, Copy, PartialEq, Eq, Structural, Debug)]
pub enum FlexDirection {
    Row,
    RowReverse,
    Column,
    ColumnReverse,
}

/// Layout of a node.
#[derive(Clone, Copy, PartialEq, Eq, Structural, Debug)]
pub struct Style {
    pub flex_direction: FlexDirection,
    pub min_height: u32,
    pub absolute: bool,
}

/// Whether an entity holds the input focus.
#[derive(Clone, Copy, PartialEq, Eq, Structural, Debug)]
pub enum Focusable {
    Focused,
    Unfocused,
}

impl Default for Focusable {
    /// A focusable entity starts without focus.
    fn default() -> (r: Focusable)
        ensures
            r == Focusable::Unfocused,
    {
        Focusable::Unfocused
    }
}

/// Material shown while an entity holds the focus, and the one it replaced.
#[derive(Clone, Copy, PartialEq, Eq, Structural, Debug)]
pub struct FocusMaterial {
    pub material: u64,
    pub cache: Option<u64>,
}

/// Materials of a button at rest, hovered and clicked.
#[derive(Clone, Copy, PartialEq, Eq, Structural, Debug)]
pub struct ButtonMaterial {
    pub material: u64,
    pub material_hovered: u64,
    pub material_clicked: u64,
}

/// Pointer interaction with an entity.
#[derive(Clone, Copy, PartialEq, Eq, Structural, Debug)]
pub enum Interaction {
    Clicked,
    Hovered,
    Idle,
}

/// Whether an entity stops pointer interaction or lets it through to what lies below.
#[derive(Clone, Copy, PartialEq, Eq, Structural, Debug)]
pub enum FocusPolicy {
    Block,
    Pass,
}

/// Components that hold no entity reference.
#[derive(Clone, Copy, PartialEq, Eq, Structural, Debug)]
pub struct Plain {
    pub style: Option<Style>,
    pub focusable: Option<Focusable>,
    pub focus_material: Option<FocusMaterial>,
    pub button_material: Option<ButtonMaterial>,
    pub interaction: Option<Interaction>,
    pub focus_policy: Option<FocusPolicy>,
    pub visible: Option<bool>,
    pub material: Option<u64>,
}

impl Plain {
    pub fn empty() -> (r: Plain)
        ensures
            r == Plain::spec_empty(),
    {
        Plain {
            style: None,
            focusable: None,
            focus_material: None,
            button_material: None,
            interaction: None,
            focus_policy: None,
            visible: None,
            material: None,
        }
    }

    pub open spec fn spec_empty() -> Plain {
        Plain {
            style: None,
            focusable: None,
            focus_material: None,
            button_material: None,
            interaction: None,
            focus_policy: None,
            visible: None,
            material: None,
        }
    }
}

/// Why an identity could not be rewritten.
#[derive(Clone, Copy, PartialEq, Eq, Structural, Debug)]
pub enum MapEntitiesError {
    EntityNotFound(Entity),
}

/// Old-to-new identities of one graft: slot `i` holds the new identity of
/// the entity with index `i`, or nothing where that entity was not copied.
pub struct EntityMap {
    pub entries: Vec<Option<Entity>>,
}

impl View for EntityMap {
    type V = Seq<Option<Entity>>;

    open spec fn view(&self) -> Seq<Option<Entity>> {
        self.entries@
    }
}

impl EntityMap {
    /// Whether `e` has an entry.
    pub open spec fn resolves(&self, e: Entity) -> bool {
        e.index < self@.len() && self@[e.index as int].is_some()
    }

    /// The entry of `e`.
    pub open spec fn image(&self, e: Entity) -> Entity {
        self@[e.index as int].unwrap()
    }

    pub fn new() -> (r: EntityMap)
        ensures
            r@ == Seq::<Option<Entity>>::empty(),
    {
        EntityMap { entries: Vec::new() }
    }

    /// The new identity of `e`; fails where `e` was not copied.
    pub fn get(&self, e: Entity) -> (r: Result<Entity, MapEntitiesError>)
        ensures
            r.is_ok() == self.resolves(e),
            r.is_ok() ==> r.unwrap() == self.image(e),
            r.is_err() ==> r == Err::<Entity, MapEntitiesError>(MapEntitiesError::EntityNotFound(e)),
    {
        if e.index < self.entries.len() {
            match self.entries[e.index] {
                Some(n) => Ok(n),
                None => Err(MapEntitiesError::EntityNotFound(e)),
            }
        } else {
            Err(MapEntitiesError::EntityNotFound(e))
        }
    }
}

/// Caret of an input box: the text it decorates and its byte position there.
#[derive(Clone, Copy, PartialEq, Eq, Structural, Debug)]
pub struct Caret {
    pub text: Entity,
    pub character_index: usize,
}

impl Caret {
    /// Rewrites the text reference through `map`.
    pub fn map_entities(&mut self, map: &EntityMap) -> (r: Result<(), MapEntitiesError>)
        ensures
            r.is_ok() == map.resolves(old(self).text),
            r.is_ok() ==> *final(self) == (Caret { text: map.image(old(self).text), ..*old(self) }),
    {
        let t = map.get(self.text)?;
        self.text = t;
        Ok(())
    }
}

/// Links of an input box to its text and caret entities.
#[derive(Clone, Copy, PartialEq, Eq, Structural, Debug)]
pub struct InputBox {
    pub text: Entity,
    pub caret: Entity,
}

impl InputBox {
    /// Rewrites both references through `map`.
    pub fn map_entities(&mut self, map: &EntityMap) -> (r: Result<(), MapEntitiesError>)
        ensures
            r.is_ok() == (map.resolves(old(self).text) && map.resolves(old(self).caret)),
            r.is_ok() ==> *final(self) == (InputBox {
                text: map.image(old(self).text),
                caret: map.image(old(self).caret),
            }),
    {
        let t = map.get(self.text)?;
        let c = map.get(self.caret)?;
        self.text = t;
        self.caret = c;
        Ok(())
    }
}

/// A button that, when clicked, emits the event `tag` about `target`.
#[derive(Clone, Copy, PartialEq, Eq, Structural, Debug)]
pub struct EventButton {
    pub tag: u64,
    pub target: Entity,
}

impl EventButton {
    pub fn new(tag: u64, target: Entity) -> (r: EventButton)
        ensures
            r == (EventButton { tag, target }),
    {
        EventButton { tag, target }
    }

    /// Rewrites the target reference through `map`.
    pub fn map_entities(&mut self, map: &EntityMap) -> (r: Result<(), MapEntitiesError>)
        ensures
            r.is_ok() == map.resolves(old(self).target),
            r.is_ok() ==> *final(self) == (EventButton { target: map.image(old(self).target), ..*old(self) }),
    {
        let t = map.get(self.target)?;
        self.target = t;
        Ok(())
    }
}

} // verus!
