//! A single-line text entry: a text leaf with a caret leaf inside it.
use vstd::prelude::*;
use crate::arena::{empty_view, live, Arena, EntityData, EntityView};
use crate::focus::CurrentFocus;
use crate::text_edit::{arrow_moved, edit_chars, edit_text, submissions, text_len, texts_of};
use crate::text_index::{byte_len, on_boundary, prefix_len};
use crate::components::{
    Caret, Color, Entity, FlexDirection, FocusPolicy, Focusable, InputBox as InputBoxLinks, Interaction,
    Plain, Style, Text, TextStyle, TextView,
};
use crate::widget::{Widget, WidgetBuilder};
use crate::widgets::base::Base;
use crate::widgets::label::black;

verus! {

/// Font size of the entry text and of the caret.
pub const INPUT_FONT_SIZE: u32 = 16;

pub open spec fn input_text_style(font: u64) -> TextStyle {
    TextStyle { font, font_size: INPUT_FONT_SIZE, color: black() }
}

/// The caret entity of a new input box.
pub open spec fn caret_view(font: u64, text: Entity) -> EntityView {
    EntityView {
        parent: Some(text),
        text: Some(TextView { value: seq!['|'], style: input_text_style(font) }),
        plain: Plain {
            style: Some(
                Style {
                    flex_direction: FlexDirection::Row,
                    min_height: INPUT_FONT_SIZE,
                    absolute: true,
                },
            ),
            focus_policy: Some(FocusPolicy::Pass),
            visible: Some(false),
            ..Plain::spec_empty()
        },
        caret: Some(Caret { text, character_index: 0 }),
        ..empty_view()
    }
}

/// The text entity of a new input box.
pub open spec fn entry_view(font: u64, root: Entity, caret: Entity) -> EntityView {
    EntityView {
        parent: Some(root),
        children: seq![caret],
        text: Some(TextView { value: Seq::empty(), style: input_text_style(font) }),
        plain: Plain {
            style: Some(
                Style {
                    flex_direction: FlexDirection::Row,
                    min_height: INPUT_FONT_SIZE,
                    absolute: false,
                },
            ),
            focus_policy: Some(FocusPolicy::Pass),
            ..Plain::spec_empty()
        },
        ..empty_view()
    }
}

/// The root entity of a new input box.
pub open spec fn box_view(text: Entity, caret: Entity) -> EntityView {
    EntityView {
        children: seq![text],
        plain: Plain {
            style: Some(Style { flex_direction: FlexDirection::Row, min_height: 0, absolute: false }),
            interaction: Some(Interaction::Idle),
            focus_policy: Some(FocusPolicy::Block),
            focusable: Some(Focusable::Unfocused),
            ..Plain::spec_empty()
        },
        input_box: Some(InputBoxLinks { text, caret }),
        ..empty_view()
    }
}

/// A focusable text entry.
#[derive(Clone, Copy, PartialEq, Eq, Structural, Debug)]
pub struct InputBox {
    pub base: Base,
    pub text: Entity,
    pub caret: Entity,
}

impl Widget for InputBox {
    open spec fn builder_spec(&self) -> u64 {
        self.base.builder
    }

    open spec fn root_spec(&self) -> Entity {
        self.base.root
    }

    fn builder_id(&self) -> (r: u64) {
        self.base.builder
    }

    fn root_id(&self) -> (r: Entity) {
        self.base.root
    }
}

impl InputBox {
    /// An empty input box: a caret entity, the text entity holding it, and
    /// the focusable root holding the text, added in that order.
    pub fn new(wb: &mut WidgetBuilder) -> (r: InputBox)
        requires
            old(wb).world@.len() + 3 <= usize::MAX,
        ensures
            final(wb).id == old(wb).id,
            final(wb).default_font == old(wb).default_font,
            r.base.builder == old(wb).id,
            r.caret.index == old(wb).world@.len(),
            r.text.index == old(wb).world@.len() + 1,
            r.base.root.index == old(wb).world@.len() + 2,
            final(wb).world@ == old(wb).world@ + seq![
                Some(caret_view(old(wb).default_font, r.text)),
                Some(entry_view(old(wb).default_font, r.base.root, r.caret)),
                Some(box_view(r.text, r.caret)),
            ],
    {
        let n = wb.world.len();
        let caret = Entity { index: n };
        let text = Entity { index: n + 1 };
        let root = Entity { index: n + 2 };
        let style = TextStyle {
            font: wb.default_font,
            font_size: INPUT_FONT_SIZE,
            color: crate::components::Color { r: 0, g: 0, b: 0, a: 255 },
        };
        let mut c = EntityData::empty();
        c.parent = Some(text);
        c.text = Some(Text { value: "|".to_owned(), style });
        c.plain.style = Some(
            Style { flex_direction: FlexDirection::Row, min_height: INPUT_FONT_SIZE, absolute: true },
        );
        c.plain.focus_policy = Some(FocusPolicy::Pass);
        c.plain.visible = Some(false);
        c.caret = Some(Caret { text, character_index: 0 });
        let mut t = EntityData::empty();
        t.parent = Some(root);
        t.children.push(caret);
        t.text = Some(Text { value: String::new(), style });
        t.plain.style = Some(
            Style { flex_direction: FlexDirection::Row, min_height: INPUT_FONT_SIZE, absolute: false },
        );
        t.plain.focus_policy = Some(FocusPolicy::Pass);
        let mut b = EntityData::empty();
        b.children.push(text);
        b.plain.style = Some(
            Style { flex_direction: FlexDirection::Row, min_height: 0, absolute: false },
        );
        b.plain.interaction = Some(Interaction::Idle);
        b.plain.focus_policy = Some(FocusPolicy::Block);
        b.plain.focusable = Some(Focusable::default());
        b.input_box = Some(InputBoxLinks { text, caret });
        proof {
            reveal_strlit("|");
            assert("|"@ =~= seq!['|']);
            assert(c@ == caret_view(wb.default_font, text));
            assert(t@ =~= entry_view(wb.default_font, root, caret));
            assert(b@ =~= box_view(text, caret));
        }
        let ghost w0 = wb.world@;
        wb.world.push_slot(Some(c));
        wb.world.push_slot(Some(t));
        let base = Base::spawn_with(wb, b);
        proof {
            assert(wb.world@ =~= w0 + seq![
                Some(caret_view(wb.default_font, text)),
                Some(entry_view(wb.default_font, root, caret)),
                Some(box_view(text, caret)),
            ]);
        }
        InputBox { base, text, caret }
    }

    /// The entity that holds the entered text.
    pub fn text(&self) -> (r: Entity)
        ensures
            r == self.text,
    {
        self.text
    }

    /// The entity that shows the caret.
    pub fn caret(&self) -> (r: Entity)
        ensures
            r == self.caret,
    {
        self.caret
    }
}

/// Where the caret is drawn, relative to the laid-out text.
#[derive(Clone, Copy, PartialEq, Eq, Structural, Debug)]
pub enum CaretPlacement {
    /// At the start of the line.
    Start,
    /// After the whole measured text.
    End,
    /// At the glyph with this position in the layout.
    AtGlyph(usize),
    /// Where it was: no layout, or no glyph starts at the caret.
    Unchanged,
}

/// Decides where the caret at byte `character_index` of a text of
/// `text_len` bytes is drawn, given the source byte index of each laid-out
/// glyph in order (none while the text has no layout yet).
pub fn move_caret(character_index: usize, text_len: usize, glyphs: &Option<Vec<usize>>) -> (r:
    CaretPlacement)
    ensures
        character_index == 0 ==> r == CaretPlacement::Start,
        character_index != 0 && glyphs.is_none() ==> r == CaretPlacement::Unchanged,
        character_index != 0 && glyphs.is_some() && character_index == text_len ==> r
            == CaretPlacement::End,
        character_index != 0 && glyphs.is_some() && character_index != text_len ==> match r {
            CaretPlacement::AtGlyph(k) => {
                &&& k < glyphs.unwrap()@.len()
                &&& glyphs.unwrap()@[k as int] == character_index
                &&& forall|j: int| 0 <= j < k ==> glyphs.unwrap()@[j] != character_index
            },
            CaretPlacement::Unchanged => forall|j: int|
                0 <= j < glyphs.unwrap()@.len() ==> glyphs.unwrap()@[j] != character_index,
            _ => false,
        },
{
    if character_index == 0 {
        return CaretPlacement::Start;
    }
    match glyphs {
        None => CaretPlacement::Unchanged,
        Some(g) => {
            if character_index == text_len {
                return CaretPlacement::End;
            }
            let mut k: usize = 0;
            while k < g.len()
                invariant
                    k <= g@.len(),
                    character_index != 0,
                    character_index != text_len,
                    glyphs.is_some() && glyphs.unwrap()@ == g@,
                    forall|j: int| 0 <= j < k ==> g@[j] != character_index,
                decreases g@.len() - k,
            {
                if g[k] == character_index {
                    return CaretPlacement::AtGlyph(k);
                }
                k = k + 1;
            }
            CaretPlacement::Unchanged
        },
    }
}

/// Emitted when return is pressed in an input box: the box and its text.
pub struct InputBoxReturnEvent {
    pub source: Entity,
    pub text: String,
}

/// Asks for the text of an input box to be cleared.
#[derive(Clone, Copy, PartialEq, Eq, Structural, Debug)]
pub struct InputBoxClearEvent {
    pub target: Entity,
}

/// The links of the input box `e`, where `e` is a live input box.
pub open spec fn links_of(a: Seq<Option<EntityView>>, e: Entity) -> Option<InputBoxLinks> {
    if live(a, e) {
        a[e.index as int].unwrap().input_box
    } else {
        None
    }
}

/// The text and caret entities of `l` are distinct, live, and hold text and a caret.
pub open spec fn well_linked_links(a: Seq<Option<EntityView>>, l: InputBoxLinks) -> bool {
    &&& l.text != l.caret
    &&& live(a, l.text)
    &&& a[l.text.index as int].unwrap().text.is_some()
    &&& live(a, l.caret)
    &&& a[l.caret.index as int].unwrap().caret.is_some()
}

/// The input box `e` has a live text entity holding text, and a distinct
/// live caret entity holding a caret.
pub open spec fn well_linked(a: Seq<Option<EntityView>>, e: Entity) -> bool {
    match links_of(a, e) {
        Some(l) => well_linked_links(a, l),
        None => false,
    }
}

/// Text held by the live entity `t`.
pub open spec fn text_at(a: Seq<Option<EntityView>>, t: Entity) -> Seq<char> {
    a[t.index as int].unwrap().text.unwrap().value
}

/// Caret position held by the live entity `c`.
pub open spec fn caret_at(a: Seq<Option<EntityView>>, c: Entity) -> usize {
    a[c.index as int].unwrap().caret.unwrap().character_index
}

/// `a` with the text of `l.text` set to `s` and the caret position of
/// `l.caret` set to `i`, nothing else changed.
pub open spec fn with_entry(a: Seq<Option<EntityView>>, l: InputBoxLinks, s: Seq<char>, i: usize) -> Seq<
    Option<EntityView>,
> {
    let tv = a[l.text.index as int].unwrap();
    let a1 = a.update(
        l.text.index as int,
        Some(EntityView { text: Some(TextView { value: s, ..tv.text.unwrap() }), ..tv }),
    );
    let cv = a1[l.caret.index as int].unwrap();
    a1.update(
        l.caret.index as int,
        Some(EntityView { caret: Some(Caret { character_index: i, ..cv.caret.unwrap() }), ..cv }),
    )
}

/// Takes the text and caret entities of an input box out of the arena.
fn take_entry(world: &mut Arena, l: InputBoxLinks) -> (r: (EntityData, EntityData))
    requires
        l.text != l.caret,
        live(old(world)@, l.text),
        live(old(world)@, l.caret),
    ensures
        r.0@ == old(world)@[l.text.index as int].unwrap(),
        r.1@ == old(world)@[l.caret.index as int].unwrap(),
        final(world)@ == old(world)@.update(l.text.index as int, None).update(l.caret.index as int, None),
{
    let t = world.take_slot(l.text.index);
    let c = world.take_slot(l.caret.index);
    match (t, c) {
        (Some(t), Some(c)) => (t, c),
        _ => {
            proof {
                assert(false);
            }
            (EntityData::empty(), EntityData::empty())
        },
    }
}

/// Sets the text of an input box to `s` and its caret to `i`.
fn set_entry(world: &mut Arena, l: InputBoxLinks, s: String, i: usize)
    requires
        well_linked_links(old(world)@, l),
    ensures
        final(world)@ == with_entry(old(world)@, l, s@, i),
{
    let ghost a = world@;
    let (mut t, mut c) = take_entry(world, l);
    match t.text {
        Some(x) => {
            t.text = Some(Text { value: s, style: x.style });
        },
        None => {},
    }
    match c.caret {
        Some(x) => {
            c.caret = Some(Caret { text: x.text, character_index: i });
        },
        None => {},
    }
    world.put_slot(l.text.index, Some(t));
    world.put_slot(l.caret.index, Some(c));
    proof {
        assert(world@ =~= with_entry(a, l, s@, i));
    }
}

/// Clears the text of the input box named by `event` and puts its caret at
/// the start. Returns whether the box was found with its text and caret.
pub fn input_box_clear(world: &mut Arena, event: InputBoxClearEvent) -> (r: bool)
    ensures
        r == well_linked(old(world)@, event.target),
        r ==> final(world)@ == with_entry(
            old(world)@,
            links_of(old(world)@, event.target).unwrap(),
            Seq::empty(),
            0,
        ),
        !r ==> final(world)@ == old(world)@,
{
    match links(world, event.target) {
        Some(l) => {
            if entry_ready(world, l) {
                set_entry(world, l, String::new(), 0);
                true
            } else {
                false
            }
        },
        None => false,
    }
}

/// The links of `e`, where `e` is a live input box.
fn links(world: &Arena, e: Entity) -> (r: Option<InputBoxLinks>)
    ensures
        r == links_of(world@, e),
{
    if world.contains(e) {
        match &world.slots[e.index] {
            Some(d) => d.input_box,
            None => None,
        }
    } else {
        None
    }
}

fn entry_ready(world: &Arena, l: InputBoxLinks) -> (r: bool)
    ensures
        r == well_linked_links(world@, l),
{
    if l.text.index == l.caret.index || !world.contains(l.text) || !world.contains(l.caret) {
        return false;
    }
    let has_text = match &world.slots[l.text.index] {
        Some(d) => d.text.is_some(),
        None => false,
    };
    let has_caret = match &world.slots[l.caret.index] {
        Some(d) => d.caret.is_some(),
        None => false,
    };
    has_text && has_caret
}

/// Shows the caret of the input box `e` exactly while the box holds the focus.
pub fn show_caret(world: &mut Arena, e: Entity) -> (r: bool)
    ensures
        r == (well_linked(old(world)@, e) && old(world)@[e.index as int].unwrap().plain.focusable.is_some()),
        r ==> {
            let l = links_of(old(world)@, e).unwrap();
            let cv = old(world)@[l.caret.index as int].unwrap();
            final(world)@ == old(world)@.update(
                l.caret.index as int,
                Some(EntityView {
                    plain: crate::components::Plain {
                        visible: Some(old(world)@[e.index as int].unwrap().plain.focusable == Some(Focusable::Focused)),
                        ..cv.plain
                    },
                    ..cv
                }),
            )
        },
        !r ==> final(world)@ == old(world)@,
{
    let l = match links(world, e) {
        Some(l) => l,
        None => {
            return false;
        },
    };
    if !entry_ready(world, l) {
        return false;
    }
    let focused = match &world.slots[e.index] {
        Some(d) => match d.plain.focusable {
            Some(f) => f == Focusable::Focused,
            None => {
                return false;
            },
        },
        None => {
            return false;
        },
    };
    let ghost a = world@;
    let slot = world.take_slot(l.caret.index);
    match slot {
        Some(mut d) => {
            d.plain.visible = Some(focused);
            world.put_slot(l.caret.index, Some(d));
        },
        None => {},
    }
    proof {
        assert(world@ =~= a.update(
            l.caret.index as int,
            Some(EntityView {
                plain: crate::components::Plain {
                    visible: Some(a[e.index as int].unwrap().plain.focusable == Some(Focusable::Focused)),
                    ..a[l.caret.index as int].unwrap().plain
                },
                ..a[l.caret.index as int].unwrap()
            }),
        ));
    }
    true
}

/// The focused entity is an input box ready for editing: well linked, its
/// caret on a character boundary of its text, and room for `n` more characters.
pub open spec fn keyboard_ready(a: Seq<Option<EntityView>>, f: CurrentFocus, n: nat) -> bool {
    match f.focused {
        Some(e) => {
            let l = links_of(a, e).unwrap();
            &&& well_linked(a, e)
            &&& a[e.index as int].unwrap().plain.focusable == Some(Focusable::Focused)
            &&& on_boundary(text_at(a, l.text), caret_at(a, l.caret) as int)
            &&& byte_len(text_at(a, l.text)) + 4 * n <= isize::MAX
        },
        None => false,
    }
}

/// The texts of a list of return events.
pub open spec fn event_texts(v: Seq<InputBoxReturnEvent>) -> Seq<Seq<char>> {
    v.map_values(|x: InputBoxReturnEvent| x.text@)
}

/// Keyboard input of one frame for the focused input box: the arrow keys
/// move its caret, then the received characters edit its text in order.
/// Returns one event for each return received. Where the focused entity is
/// not an input box ready for editing, nothing changes.
pub fn input_box_keyboard(
    world: &mut Arena,
    current: &CurrentFocus,
    left: bool,
    right: bool,
    chars: &Vec<char>,
) -> (r: Vec<InputBoxReturnEvent>)
    ensures
        !keyboard_ready(old(world)@, *current, chars@.len()) ==> final(world)@ == old(world)@
            && r@.len() == 0,
        keyboard_ready(old(world)@, *current, chars@.len()) ==> {
            let e = current.focused.unwrap();
            let l = links_of(old(world)@, e).unwrap();
            let s = text_at(old(world)@, l.text);
            let i = caret_at(old(world)@, l.caret);
            &&& final(world)@ == with_entry(
                old(world)@,
                l,
                text_at(final(world)@, l.text),
                caret_at(final(world)@, l.caret),
            )
            &&& forall|k: int|
                0 <= k <= s.len() && #[trigger] prefix_len(s, k) == i ==> {
                    let p = arrow_moved(s, k, left, right);
                    let ed = edit_chars(s, p, chars@);
                    &&& text_at(final(world)@, l.text) == ed.0
                    &&& caret_at(final(world)@, l.caret) == prefix_len(ed.0, ed.1)
                    &&& event_texts(r@) == submissions(s, p, chars@)
                }
            &&& forall|j: int| 0 <= j < r@.len() ==> (#[trigger] r@[j]).source == e
        },
{
    let e = match current.focused {
        Some(e) => e,
        None => {
            return Vec::new();
        },
    };
    let l = match links(world, e) {
        Some(l) => l,
        None => {
            return Vec::new();
        },
    };
    if !entry_ready(world, l) {
        return Vec::new();
    }
    let is_focused = match &world.slots[e.index] {
        Some(d) => d.plain.focusable == Some(Focusable::Focused),
        None => false,
    };
    if !is_focused {
        return Vec::new();
    }
    let ghost a = world@;
    let (mut t, mut c) = take_entry(world, l);
    let (mut value, style) = match t.text {
        Some(x) => (x.value, x.style),
        None => {
            proof {
                assert(false);
            }
            (String::new(), TextStyle { font: 0, font_size: 0, color: Color { r: 0, g: 0, b: 0, a: 0 } })
        },
    };
    let caret = match c.caret {
        Some(x) => x,
        None => {
            proof {
                assert(false);
            }
            Caret { text: l.text, character_index: 0 }
        },
    };
    let mut index = caret.character_index;
    let len = text_len(&value);
    let limit = isize::MAX as usize;
    let ready = len <= limit && chars.len() <= (limit - len) / 4
        && value.as_str().is_char_boundary(index);
    let texts = if ready {
        edit_text(&mut value, &mut index, left, right, chars)
    } else {
        Vec::new()
    };
    t.text = Some(Text { value, style });
    c.caret = Some(Caret { text: caret.text, character_index: index });
    world.put_slot(l.text.index, Some(t));
    world.put_slot(l.caret.index, Some(c));
    proof {
        assert(world@ =~= with_entry(a, l, text_at(world@, l.text), caret_at(world@, l.caret)));
        if !ready {
            assert(world@ =~= a);
        }
    }
    let mut out: Vec<InputBoxReturnEvent> = Vec::new();
    let mut j: usize = 0;
    while j < texts.len()
        invariant
            j <= texts@.len(),
            out@.len() == j,
            forall|m: int| 0 <= m < j ==> (#[trigger] out@[m]).text@ == texts@[m]@ && out@[m].source == e,
        decreases texts@.len() - j,
    {
        out.push(InputBoxReturnEvent { source: e, text: texts[j].clone() });
        j = j + 1;
    }
    proof {
        assert(event_texts(out@) =~= texts_of(texts@));
    }
    out
}

} // verus!
