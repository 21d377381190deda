//! The editor state machine: the choose-then-place workflow.
//!
//! The machine sequences category, subtype, variant and colour choices,
//! placements on the map, and the text-writing input mode.  It decides; the
//! surrounding program performs: entering a state mounts that state's menu
//! (see [`Editor::menu_id_for`]), and the returned [`EditorEffect`] names
//! the map or text action to carry out.

use vstd::prelude::*;
use crate::admin_menu::AdminMenu;
use crate::id::Id;
use crate::tile::{EntityId, HexCoord};

verus! {

/// Relies on `String::push`: appends the given character to the end of the
/// string.
pub assume_specification[ String::push ](s: &mut String, ch: char)
    ensures
        final(s)@ == old(s)@.push(ch),
;

/// Relies on `String::pop`: removes the last character and returns it, or
/// returns `None` on an empty string.
pub assume_specification[ String::pop ](s: &mut String) -> (r: Option<char>)
    ensures
        old(s)@.len() == 0 ==> r is None && final(s)@ == old(s)@,
        old(s)@.len() > 0 ==> r == Some(old(s)@.last()) && final(s)@ == old(s)@.drop_last(),
;

/// The workflow states.
#[derive(Debug, Clone, Copy, PartialEq, Eq, Structural)]
pub enum EditorState {
    /// Choosing among tile, overlay and text.
    Choose,
    ChooseTileType,
    ChooseTileVariant,
    ChooseTileColor,
    PlaceTile,
    ChooseOverlayType,
    ChooseOverlay,
    PlaceOverlay,
    ChooseTextPosition,
    WriteText,
}

/// The choices accumulated on the way to a placement.  Each field is set on
/// entering its producing state and cleared or consumed on leaving the
/// placement or text terminal.
#[derive(Debug)]
pub struct PendingSelection {
    pub tile_type: Option<String>,
    pub tile_variant: Option<String>,
    pub tile_color: Option<String>,
    pub overlay_type: Option<String>,
    pub overlay_index: Option<usize>,
    pub text_position: Option<(EntityId, HexCoord)>,
}

/// An input event routed to the editor.
#[derive(Debug, Clone, Copy, PartialEq, Eq, Structural)]
pub enum EditorEvent {
    /// The n-th button of the current menu was pressed.
    Button(usize),
    /// The back button was pressed.
    Back,
    /// A left click on the map view at the given hex.  The entity token is
    /// fresh; the editor records it when the click starts a text preview.
    MapClick(HexCoord, EntityId),
    /// A printable character was typed.
    Printable(char),
    /// The last draft character was erased.
    Backspace,
    /// The draft was committed.
    Enter,
}

/// What the surrounding program must perform after a transition, besides
/// mounting the new state's menu.
#[derive(Debug)]
pub enum EditorEffect {
    /// Nothing beyond the menu swap.
    Nothing,
    /// Place the selected tile at the hex.
    PlaceTileAt(HexCoord),
    /// Place the selected overlay at the hex.
    PlaceOverlayAt(HexCoord),
    /// Spawn the recorded preview entity at the hex.
    ShowTextPreview(HexCoord),
    /// Despawn the preview entity: text entry was abandoned.
    DropTextPreview(EntityId),
    /// Despawn the preview and place the committed text at the hex.
    CommitText { hex: HexCoord, preview: EntityId, text: String },
}

/// The state after an event, exactly as the workflow table prescribes;
/// events not listed for a state leave it unchanged.
pub open spec fn spec_next_state(s: EditorState, ev: EditorEvent) -> EditorState {
    match ev {
        EditorEvent::Button(n) => match s {
            EditorState::Choose => if n == 0 {
                EditorState::ChooseTileType
            } else if n == 1 {
                EditorState::ChooseOverlayType
            } else if n == 2 {
                EditorState::ChooseTextPosition
            } else {
                EditorState::Choose
            },
            EditorState::ChooseTileType => EditorState::ChooseTileVariant,
            EditorState::ChooseTileVariant => EditorState::ChooseTileColor,
            EditorState::ChooseTileColor => EditorState::PlaceTile,
            EditorState::ChooseOverlayType => EditorState::ChooseOverlay,
            EditorState::ChooseOverlay => EditorState::PlaceOverlay,
            other => other,
        },
        EditorEvent::Back => match s {
            EditorState::Choose => EditorState::Choose,
            EditorState::ChooseTileType => EditorState::Choose,
            EditorState::ChooseTileVariant => EditorState::ChooseTileType,
            EditorState::ChooseTileColor => EditorState::ChooseTileVariant,
            EditorState::PlaceTile => EditorState::ChooseTileColor,
            EditorState::ChooseOverlayType => EditorState::Choose,
            EditorState::ChooseOverlay => EditorState::ChooseOverlayType,
            EditorState::PlaceOverlay => EditorState::ChooseOverlay,
            EditorState::ChooseTextPosition => EditorState::Choose,
            EditorState::WriteText => EditorState::ChooseTextPosition,
        },
        EditorEvent::MapClick(_, _) => match s {
            EditorState::ChooseTextPosition => EditorState::WriteText,
            other => other,
        },
        EditorEvent::Printable(_) => s,
        EditorEvent::Backspace => s,
        EditorEvent::Enter => match s {
            EditorState::WriteText => EditorState::Choose,
            other => other,
        },
    }
}

/// States whose button presses record the pressed button's name.
pub open spec fn consumes_button_name(s: EditorState) -> bool {
    s is ChooseTileType || s is ChooseTileVariant || s is ChooseTileColor
        || s is ChooseOverlayType
}

/// The editor: current state, pending selection, and the text draft.
#[derive(Debug)]
pub struct Editor {
    pub state: EditorState,
    pub selection: PendingSelection,
    pub draft: String,
}

impl Editor {
    /// Every state finds the selection fields it relies on.
    pub open spec fn wf(self) -> bool {
        &&& (self.state is ChooseTileVariant || self.state is ChooseTileColor || self.state
            is PlaceTile) ==> self.selection.tile_type is Some
        &&& (self.state is ChooseTileColor || self.state is PlaceTile)
            ==> self.selection.tile_variant is Some
        &&& self.state is PlaceTile ==> self.selection.tile_color is Some
        &&& (self.state is ChooseOverlay || self.state is PlaceOverlay)
            ==> self.selection.overlay_type is Some
        &&& self.state is PlaceOverlay ==> self.selection.overlay_index is Some
        &&& self.state is WriteText ==> self.selection.text_position is Some
    }

    /// A fresh editor, at the top-level choice with nothing selected.
    pub fn new() -> (r: Editor)
        ensures
            r.wf(),
            r.state == EditorState::Choose,
            r.selection.tile_type is None,
            r.selection.tile_variant is None,
            r.selection.tile_color is None,
            r.selection.overlay_type is None,
            r.selection.overlay_index is None,
            r.selection.text_position is None,
            r.draft@ == Seq::<char>::empty(),
    {
        Editor {
            state: EditorState::Choose,
            selection: PendingSelection {
                tile_type: None,
                tile_variant: None,
                tile_color: None,
                overlay_type: None,
                overlay_index: None,
                text_position: None,
            },
            draft: String::new(),
        }
    }

    /// Feeds one event through the workflow table.  The new state follows
    /// [`spec_next_state`]; each selection field is set by its producing
    /// transition, cleared on backing out of or committing its terminal,
    /// and untouched otherwise; the effect names exactly the action owed.
    pub fn step(&mut self, ev: &EditorEvent, menu: &AdminMenu) -> (eff: EditorEffect)
        requires
            old(self).wf(),
            ((consumes_button_name(old(self).state) || old(self).state is ChooseOverlay) && ev
                is Button) ==> ev->Button_0 < menu.0@.len(),
        ensures
            final(self).wf(),
            final(self).state == spec_next_state(old(self).state, *ev),
            // tile type: set by the type choice, never cleared
            (old(self).state is ChooseTileType && ev matches EditorEvent::Button(n)) ==> (final(self).selection.tile_type matches Some(t) && t@ == menu.0@[ev->Button_0 as int]@.name),
            !(old(self).state is ChooseTileType && ev is Button) ==> final(self).selection.tile_type == old(self).selection.tile_type,
            // tile variant
            (old(self).state is ChooseTileVariant && ev is Button) ==> (final(self).selection.tile_variant matches Some(t) && t@ == menu.0@[ev->Button_0 as int]@.name),
            !(old(self).state is ChooseTileVariant && ev is Button) ==> final(self).selection.tile_variant == old(self).selection.tile_variant,
            // tile colour: set by the colour choice, cleared backing out of
            // the placement state
            (old(self).state is ChooseTileColor && ev is Button) ==> (final(self).selection.tile_color matches Some(t) && t@ == menu.0@[ev->Button_0 as int]@.name),
            (old(self).state is PlaceTile && ev is Back) ==> final(self).selection.tile_color is None,
            !(old(self).state is ChooseTileColor && ev is Button) && !(old(self).state
                is PlaceTile && ev is Back) ==> final(self).selection.tile_color == old(self).selection.tile_color,
            // overlay type
            (old(self).state is ChooseOverlayType && ev is Button) ==> (final(self).selection.overlay_type matches Some(t) && t@ == menu.0@[ev->Button_0 as int]@.name),
            !(old(self).state is ChooseOverlayType && ev is Button) ==> final(self).selection.overlay_type == old(self).selection.overlay_type,
            // overlay index
            (old(self).state is ChooseOverlay && ev is Button) ==> final(self).selection.overlay_index == Some(ev->Button_0),
            (old(self).state is PlaceOverlay && ev is Back) ==> final(self).selection.overlay_index is None,
            !(old(self).state is ChooseOverlay && ev is Button) && !(old(self).state
                is PlaceOverlay && ev is Back) ==> final(self).selection.overlay_index == old(self).selection.overlay_index,
            // text position
            (old(self).state is ChooseTextPosition && ev is MapClick) ==> final(self).selection.text_position == Some((ev->MapClick_1, ev->MapClick_0)),
            (old(self).state is WriteText && (ev is Back || ev is Enter)) ==> final(self).selection.text_position is None,
            !(old(self).state is ChooseTextPosition && ev is MapClick) && !(old(self).state
                is WriteText && (ev is Back || ev is Enter)) ==> final(self).selection.text_position == old(self).selection.text_position,
            // the draft
            (old(self).state is WriteText && ev matches EditorEvent::Printable(c)) ==> final(self).draft@ == old(self).draft@.push(ev->Printable_0),
            (old(self).state is WriteText && ev is Backspace) ==> final(self).draft@ == (if old(self).draft@.len() == 0 {
                old(self).draft@
            } else {
                old(self).draft@.drop_last()
            }),
            (old(self).state is WriteText && (ev is Back || ev is Enter)) ==> final(self).draft@
                == Seq::<char>::empty(),
            (old(self).state is ChooseTextPosition && ev is MapClick) ==> final(self).draft@
                == Seq::<char>::empty(),
            !(old(self).state is WriteText && (ev is Printable || ev is Backspace || ev is Back
                || ev is Enter)) && !(old(self).state is ChooseTextPosition && ev is MapClick)
                ==> final(self).draft@ == old(self).draft@,
            // the effect owed to the caller
            (old(self).state is PlaceTile && ev is MapClick) ==> (eff matches
                EditorEffect::PlaceTileAt(h2) && h2 == ev->MapClick_0),
            (old(self).state is PlaceOverlay && ev is MapClick) ==> (eff matches
                EditorEffect::PlaceOverlayAt(h2) && h2 == ev->MapClick_0),
            (old(self).state is ChooseTextPosition && ev is MapClick) ==> (eff matches
                EditorEffect::ShowTextPreview(h2) && h2 == ev->MapClick_0),
            (old(self).state is WriteText && ev is Back) ==> (eff matches
                EditorEffect::DropTextPreview(p) && Some((p, (old(self).selection.text_position->0).1))
                == old(self).selection.text_position),
            (old(self).state is WriteText && ev is Enter) ==> (eff matches EditorEffect::CommitText {
                hex,
                preview,
                text,
            } && Some((preview, hex)) == old(self).selection.text_position && text == old(self).draft),
            !((old(self).state is PlaceTile || old(self).state is PlaceOverlay || old(self).state
                is ChooseTextPosition) && ev is MapClick) && !(old(self).state is WriteText && (ev
                is Back || ev is Enter)) ==> eff is Nothing,
    {
        let state = self.state;
        match ev {
            EditorEvent::Button(n) => {
                match state {
                    EditorState::Choose => {
                        if *n == 0 {
                            self.state = EditorState::ChooseTileType;
                        } else if *n == 1 {
                            self.state = EditorState::ChooseOverlayType;
                        } else if *n == 2 {
                            self.state = EditorState::ChooseTextPosition;
                        }
                        EditorEffect::Nothing
                    },
                    EditorState::ChooseTileType => {
                        self.selection.tile_type = Some(menu.0[*n].name.clone());
                        self.state = EditorState::ChooseTileVariant;
                        EditorEffect::Nothing
                    },
                    EditorState::ChooseTileVariant => {
                        self.selection.tile_variant = Some(menu.0[*n].name.clone());
                        self.state = EditorState::ChooseTileColor;
                        EditorEffect::Nothing
                    },
                    EditorState::ChooseTileColor => {
                        self.selection.tile_color = Some(menu.0[*n].name.clone());
                        self.state = EditorState::PlaceTile;
                        EditorEffect::Nothing
                    },
                    EditorState::ChooseOverlayType => {
                        self.selection.overlay_type = Some(menu.0[*n].name.clone());
                        self.state = EditorState::ChooseOverlay;
                        EditorEffect::Nothing
                    },
                    EditorState::ChooseOverlay => {
                        self.selection.overlay_index = Some(*n);
                        self.state = EditorState::PlaceOverlay;
                        EditorEffect::Nothing
                    },
                    _ => EditorEffect::Nothing,
                }
            },
            EditorEvent::Back => {
                match state {
                    EditorState::Choose => EditorEffect::Nothing,
                    EditorState::ChooseTileType => {
                        self.state = EditorState::Choose;
                        EditorEffect::Nothing
                    },
                    EditorState::ChooseTileVariant => {
                        self.state = EditorState::ChooseTileType;
                        EditorEffect::Nothing
                    },
                    EditorState::ChooseTileColor => {
                        self.state = EditorState::ChooseTileVariant;
                        EditorEffect::Nothing
                    },
                    EditorState::PlaceTile => {
                        self.selection.tile_color = None;
                        self.state = EditorState::ChooseTileColor;
                        EditorEffect::Nothing
                    },
                    EditorState::ChooseOverlayType => {
                        self.state = EditorState::Choose;
                        EditorEffect::Nothing
                    },
                    EditorState::ChooseOverlay => {
                        self.state = EditorState::ChooseOverlayType;
                        EditorEffect::Nothing
                    },
                    EditorState::PlaceOverlay => {
                        self.selection.overlay_index = None;
                        self.state = EditorState::ChooseOverlay;
                        EditorEffect::Nothing
                    },
                    EditorState::ChooseTextPosition => {
                        self.state = EditorState::Choose;
                        EditorEffect::Nothing
                    },
                    EditorState::WriteText => {
                        let preview = match &self.selection.text_position {
                            Some(p) => p.0,
                            None => EntityId(0),
                        };
                        self.selection.text_position = None;
                        self.draft = String::new();
                        self.state = EditorState::ChooseTextPosition;
                        EditorEffect::DropTextPreview(preview)
                    },
                }
            },
            EditorEvent::MapClick(hex, fresh) => {
                match state {
                    EditorState::PlaceTile => EditorEffect::PlaceTileAt(*hex),
                    EditorState::PlaceOverlay => EditorEffect::PlaceOverlayAt(*hex),
                    EditorState::ChooseTextPosition => {
                        self.selection.text_position = Some((*fresh, *hex));
                        self.draft = String::new();
                        self.state = EditorState::WriteText;
                        EditorEffect::ShowTextPreview(*hex)
                    },
                    _ => EditorEffect::Nothing,
                }
            },
            EditorEvent::Printable(c) => {
                match state {
                    EditorState::WriteText => {
                        self.draft.push(*c);
                        EditorEffect::Nothing
                    },
                    _ => EditorEffect::Nothing,
                }
            },
            EditorEvent::Backspace => {
                match state {
                    EditorState::WriteText => {
                        self.draft.pop();
                        EditorEffect::Nothing
                    },
                    _ => EditorEffect::Nothing,
                }
            },
            EditorEvent::Enter => {
                match state {
                    EditorState::WriteText => {
                        let (preview, hex) = match &self.selection.text_position {
                            Some(p) => (p.0, p.1),
                            None => (EntityId(0), HexCoord { q: 0, r: 0 }),
                        };
                        let text = self.draft.clone();
                        self.draft = String::new();
                        self.selection.text_position = None;
                        self.state = EditorState::Choose;
                        EditorEffect::CommitText { hex, preview, text }
                    },
                    _ => EditorEffect::Nothing,
                }
            },
        }
    }

    /// The identifier of the menu the current state shows, or `None` for
    /// the editor's own built-in menus (the top-level choice and the text
    /// box).
    pub fn menu_id_for(&self) -> (r: Option<Id>)
        requires
            self.wf(),
        ensures
            self.state is ChooseTileType ==> (r matches Some(id) && id@ =~= Seq::<
                Seq<char>,
            >::empty()),
            self.state is ChooseTileVariant ==> (r matches Some(id) && id@ =~= seq![
                self.selection.tile_type->0@,
            ]),
            self.state is ChooseTileColor ==> (r matches Some(id) && id@ =~= seq![
                self.selection.tile_type->0@,
                self.selection.tile_variant->0@,
            ]),
            self.state is PlaceTile ==> (r matches Some(id) && id@ =~= seq![
                self.selection.tile_type->0@,
                self.selection.tile_variant->0@,
                self.selection.tile_color->0@,
            ]),
            self.state is ChooseOverlayType ==> (r matches Some(id) && id@ =~= seq![
                crate::load_handler::overlay_segment(),
            ]),
            (self.state is ChooseOverlay || self.state is PlaceOverlay) ==> (r matches Some(id)
                && id@ =~= seq![
                crate::load_handler::overlay_segment(),
                self.selection.overlay_type->0@,
            ]),
            (self.state is Choose || self.state is ChooseTextPosition || self.state is WriteText)
                ==> r is None,
    {
        match self.state {
            EditorState::Choose | EditorState::ChooseTextPosition | EditorState::WriteText => None,
            EditorState::ChooseTileType => {
                let id = Id(Vec::new());
                proof {
                    crate::id::lemma_segments_deep_view(id.0);
                    assert(id@ =~= Seq::<Seq<char>>::empty());
                }
                Some(id)
            },
            EditorState::ChooseTileVariant => {
                let t = match &self.selection.tile_type {
                    Some(t) => t.clone(),
                    None => String::new(),
                };
                let mut segs: Vec<String> = Vec::new();
                segs.push(t);
                let id = Id(segs);
                proof {
                    crate::id::lemma_segments_deep_view(id.0);
                    assert(id@ =~= seq![self.selection.tile_type->0@]);
                }
                Some(id)
            },
            EditorState::ChooseTileColor => {
                let t = match &self.selection.tile_type {
                    Some(t) => t.clone(),
                    None => String::new(),
                };
                let v = match &self.selection.tile_variant {
                    Some(v) => v.clone(),
                    None => String::new(),
                };
                let mut segs: Vec<String> = Vec::new();
                segs.push(t);
                segs.push(v);
                let id = Id(segs);
                proof {
                    crate::id::lemma_segments_deep_view(id.0);
                    assert(id@ =~= seq![
                        self.selection.tile_type->0@,
                        self.selection.tile_variant->0@,
                    ]);
                }
                Some(id)
            },
            EditorState::PlaceTile => {
                let t = match &self.selection.tile_type {
                    Some(t) => t.clone(),
                    None => String::new(),
                };
                let v = match &self.selection.tile_variant {
                    Some(v) => v.clone(),
                    None => String::new(),
                };
                let c = match &self.selection.tile_color {
                    Some(c) => c.clone(),
                    None => String::new(),
                };
                let mut segs: Vec<String> = Vec::new();
                segs.push(t);
                segs.push(v);
                segs.push(c);
                let id = Id(segs);
                proof {
                    crate::id::lemma_segments_deep_view(id.0);
                    assert(id@ =~= seq![
                        self.selection.tile_type->0@,
                        self.selection.tile_variant->0@,
                        self.selection.tile_color->0@,
                    ]);
                }
                Some(id)
            },
            EditorState::ChooseOverlayType => {
                let overlay: String = "overlay".to_owned();
                proof {
                    reveal_strlit("overlay");
                    assert(overlay@ =~= crate::load_handler::overlay_segment());
                }
                let mut segs: Vec<String> = Vec::new();
                segs.push(overlay);
                let id = Id(segs);
                proof {
                    crate::id::lemma_segments_deep_view(id.0);
                    assert(id@ =~= seq![crate::load_handler::overlay_segment()]);
                }
                Some(id)
            },
            EditorState::ChooseOverlay | EditorState::PlaceOverlay => {
                let overlay: String = "overlay".to_owned();
                proof {
                    reveal_strlit("overlay");
                    assert(overlay@ =~= crate::load_handler::overlay_segment());
                }
                let o = match &self.selection.overlay_type {
                    Some(o) => o.clone(),
                    None => String::new(),
                };
                let mut segs: Vec<String> = Vec::new();
                segs.push(overlay);
                segs.push(o);
                let id = Id(segs);
                proof {
                    crate::id::lemma_segments_deep_view(id.0);
                    assert(id@ =~= seq![
                        crate::load_handler::overlay_segment(),
                        self.selection.overlay_type->0@,
                    ]);
                }
                Some(id)
            },
        }
    }
}

/// Whether a left click on the map view reaches the placement engine: it
/// must come from the admin window and not sit over the admin bar.
pub fn map_click_allowed(over_admin_bar: bool, focused_is_admin: bool) -> (r: bool)
    ensures
        r == (!over_admin_bar && focused_is_admin),
{
    !over_admin_bar && focused_is_admin
}

} // verus!
