//! The tree of widgets on a screen and the actions on it.

pub mod action;
pub mod law;
pub mod node;
pub mod rect;

pub use action::Action;
pub use action::SwipeDir;
pub use action::TargetInfo;
pub use node::Hierarchy;
pub use node::UiNode;
pub use rect::Rect;
