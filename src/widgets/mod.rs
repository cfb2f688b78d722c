//! The concrete widgets.
pub mod base;
pub mod button;
pub mod from_scene;
pub mod input_box;
pub mod label;
pub mod stack;

pub use base::Base;
pub use button::Button;
pub use from_scene::FromScene;
pub use input_box::{InputBox, InputBoxClearEvent, InputBoxReturnEvent};
pub use label::Label;
pub use stack::Stack;
