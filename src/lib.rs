//! Declarative widget composition over an entity arena: isolated builders,
//! template grafting with reference fix-up, caret editing and focus.
use vstd::prelude::*;

pub mod arena;
pub mod components;
pub mod focus;
pub mod scene;
pub mod text_edit;
pub mod text_index;
pub mod widget;
pub mod widgets;

pub use components::{FocusMaterial, Focusable};
pub use focus::CurrentFocus;
pub use widget::{Widget, WidgetBuilder};

verus! {

} // verus!
