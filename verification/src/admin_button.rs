//! Menu buttons: a preview texture, a display name, and a navigation
//! action, interpreted by the navigation controller.

use vstd::prelude::*;
use crate::texture_tree::TextureHandle;

verus! {

/// What pressing a button does to the breadcrumb.
#[derive(Debug, Clone)]
pub enum ButtonAction {
    /// Descend into the child with this segment name.
    Descend(String),
    /// The button stands for a leaf: pressing it changes nothing.
    NoOp,
    /// The back button: go to the parent.
    Ascend,
}

/// The mathematical shape of a [`ButtonAction`].
pub enum SpecAction {
    Descend(Seq<char>),
    NoOp,
    Ascend,
}

impl View for ButtonAction {
    type V = SpecAction;

    open spec fn view(&self) -> SpecAction {
        match *self {
            ButtonAction::Descend(ref s) => SpecAction::Descend(s@),
            ButtonAction::NoOp => SpecAction::NoOp,
            ButtonAction::Ascend => SpecAction::Ascend,
        }
    }
}

/// One menu button.
#[derive(Debug, Clone)]
pub struct AdminButton {
    /// The preview texture: the representative leaf under this button.
    pub texture: TextureHandle,
    /// The child segment this button stands for.
    pub name: String,
    /// What pressing the button does.
    pub on_click: ButtonAction,
}

/// The mathematical shape of an [`AdminButton`].
pub struct SpecButton {
    pub texture: u64,
    pub name: Seq<char>,
    pub on_click: SpecAction,
}

impl View for AdminButton {
    type V = SpecButton;

    open spec fn view(&self) -> SpecButton {
        SpecButton { texture: self.texture.0, name: self.name@, on_click: self.on_click@ }
    }
}

} // verus!
