use dndrewrite::admin_button::{AdminButton, ButtonAction};
use dndrewrite::admin_menu::AdminMenu;
use dndrewrite::attributes::Hp;
use dndrewrite::editor::{
    Editor, EditorEffect, EditorEvent, EditorState, map_click_allowed,
};
use dndrewrite::id::Id;
use dndrewrite::map::HexMap;
use dndrewrite::resources::TextureTreeResource;
use dndrewrite::texture_tree::{TextureHandle, TextureNode};
use dndrewrite::tile::{EntityId, HexCoord};

fn menu_of(names: &[&str]) -> AdminMenu {
    AdminMenu(
        names
            .iter()
            .map(|n| AdminButton {
                texture: TextureHandle(0),
                name: n.to_string(),
                on_click: ButtonAction::Descend(n.to_string()),
            })
            .collect(),
    )
}

#[test]
fn choose_then_place_tile() {
    let mut ed = Editor::new();
    let top = menu_of(&["tile", "overlay", "text"]);
    assert!(matches!(ed.step(&EditorEvent::Button(0), &top), EditorEffect::Nothing));
    assert_eq!(ed.state, EditorState::ChooseTileType);

    let types = menu_of(&["overlay", "terrain"]);
    ed.step(&EditorEvent::Button(1), &types);
    assert_eq!(ed.state, EditorState::ChooseTileVariant);
    assert_eq!(ed.selection.tile_type.as_deref(), Some("terrain"));

    let variants = menu_of(&["hills"]);
    ed.step(&EditorEvent::Button(0), &variants);
    assert_eq!(ed.state, EditorState::ChooseTileColor);
    assert_eq!(ed.selection.tile_variant.as_deref(), Some("hills"));

    let colors = menu_of(&["green"]);
    ed.step(&EditorEvent::Button(0), &colors);
    assert_eq!(ed.state, EditorState::PlaceTile);
    assert_eq!(ed.selection.tile_color.as_deref(), Some("green"));
    let id = ed.menu_id_for().unwrap();
    assert_eq!(id.display(), "terrain/hills/green");

    // A map click in the placement state asks for a tile placement and
    // stays in the placement state.
    let hex = HexCoord { q: 0, r: 0 };
    let eff = ed.step(&EditorEvent::MapClick(hex, EntityId(99)), &colors);
    assert!(matches!(eff, EditorEffect::PlaceTileAt(h) if h == hex));
    assert_eq!(ed.state, EditorState::PlaceTile);
}

#[test]
fn back_keeps_earlier_choices() {
    // From ChooseTileColor, Back restores ChooseTileVariant: the variant
    // stays chosen and no colour is set.
    let mut ed = Editor::new();
    let top = menu_of(&["tile", "overlay", "text"]);
    ed.step(&EditorEvent::Button(0), &top);
    ed.step(&EditorEvent::Button(0), &menu_of(&["terrain"]));
    ed.step(&EditorEvent::Button(0), &menu_of(&["hills"]));
    assert_eq!(ed.state, EditorState::ChooseTileColor);

    ed.step(&EditorEvent::Back, &top);
    assert_eq!(ed.state, EditorState::ChooseTileVariant);
    assert_eq!(ed.selection.tile_variant.as_deref(), Some("hills"));
    assert!(ed.selection.tile_color.is_none());

    // Backing out of the placement state clears the colour again.
    ed.step(&EditorEvent::Button(0), &menu_of(&["hills"]));
    ed.step(&EditorEvent::Button(0), &menu_of(&["green"]));
    assert_eq!(ed.state, EditorState::PlaceTile);
    ed.step(&EditorEvent::Back, &top);
    assert_eq!(ed.state, EditorState::ChooseTileColor);
    assert!(ed.selection.tile_color.is_none());

    // Back from the top-level choice is disabled.
    let mut ed = Editor::new();
    ed.step(&EditorEvent::Back, &top);
    assert_eq!(ed.state, EditorState::Choose);
}

#[test]
fn overlay_choice_records_index() {
    let mut ed = Editor::new();
    let top = menu_of(&["tile", "overlay", "text"]);
    ed.step(&EditorEvent::Button(1), &top);
    assert_eq!(ed.state, EditorState::ChooseOverlayType);
    ed.step(&EditorEvent::Button(0), &menu_of(&["location", "marker"]));
    assert_eq!(ed.state, EditorState::ChooseOverlay);
    assert_eq!(ed.selection.overlay_type.as_deref(), Some("location"));
    ed.step(&EditorEvent::Button(1), &menu_of(&["1", "2"]));
    assert_eq!(ed.state, EditorState::PlaceOverlay);
    assert_eq!(ed.selection.overlay_index, Some(1));
    let hex = HexCoord { q: 2, r: 1 };
    let eff = ed.step(&EditorEvent::MapClick(hex, EntityId(5)), &top);
    assert!(matches!(eff, EditorEffect::PlaceOverlayAt(h) if h == hex));
}

#[test]
fn text_flow_commits_draft() {
    // In ChooseTextPosition, clicking hex (1,0) opens text entry with a
    // preview; typing H, i and Enter commits "Hi", disposes the preview
    // and returns to the top-level choice.
    let mut ed = Editor::new();
    let top = menu_of(&["tile", "overlay", "text"]);
    ed.step(&EditorEvent::Button(2), &top);
    assert_eq!(ed.state, EditorState::ChooseTextPosition);

    let hex = HexCoord { q: 1, r: 0 };
    let eff = ed.step(&EditorEvent::MapClick(hex, EntityId(77)), &top);
    assert!(matches!(eff, EditorEffect::ShowTextPreview(h) if h == hex));
    assert_eq!(ed.state, EditorState::WriteText);
    assert_eq!(ed.selection.text_position, Some((EntityId(77), hex)));

    ed.step(&EditorEvent::Printable('H'), &top);
    ed.step(&EditorEvent::Printable('i'), &top);
    assert_eq!(ed.draft, "Hi");
    // Backspace trims the draft; retype the trimmed character.
    ed.step(&EditorEvent::Backspace, &top);
    assert_eq!(ed.draft, "H");
    ed.step(&EditorEvent::Printable('i'), &top);

    let eff = ed.step(&EditorEvent::Enter, &top);
    match eff {
        EditorEffect::CommitText { hex: h, preview, text } => {
            assert_eq!(h, hex);
            assert_eq!(preview, EntityId(77));
            assert_eq!(text, "Hi");
        },
        other => panic!("expected a text commit, got {:?}", other),
    }
    assert_eq!(ed.state, EditorState::Choose);
    assert!(ed.selection.text_position.is_none());
    assert_eq!(ed.draft, "");
}

#[test]
fn abandoning_text_drops_preview() {
    let mut ed = Editor::new();
    let top = menu_of(&["tile", "overlay", "text"]);
    ed.step(&EditorEvent::Button(2), &top);
    let hex = HexCoord { q: 0, r: 2 };
    ed.step(&EditorEvent::MapClick(hex, EntityId(88)), &top);
    ed.step(&EditorEvent::Printable('x'), &top);
    let eff = ed.step(&EditorEvent::Back, &top);
    assert!(matches!(eff, EditorEffect::DropTextPreview(e) if e == EntityId(88)));
    assert_eq!(ed.state, EditorState::ChooseTextPosition);
    assert!(ed.selection.text_position.is_none());
    assert_eq!(ed.draft, "");
}

#[test]
fn committed_text_reaches_the_map() {
    let pairs = vec![(Id::new(&["terrain", "hills", "green", "1"]), TextureHandle(1))];
    let tree = TextureTreeResource(TextureNode::new(&pairs).unwrap());
    let mut map = HexMap::new();
    let hex = HexCoord { q: 1, r: 0 };
    map.place_tile(&tree, hex, Id::new(&["terrain", "hills", "green", "1"]), EntityId(1));

    let mut ed = Editor::new();
    let top = menu_of(&["tile", "overlay", "text"]);
    ed.step(&EditorEvent::Button(2), &top);
    ed.step(&EditorEvent::MapClick(hex, EntityId(50)), &top);
    ed.step(&EditorEvent::Printable('H'), &top);
    ed.step(&EditorEvent::Printable('i'), &top);
    let eff = ed.step(&EditorEvent::Enter, &top);
    let EditorEffect::CommitText { hex: h, preview, text } = eff else {
        panic!("expected a text commit");
    };
    assert_eq!(preview, EntityId(50));
    let disposed = map.place_text(h, text, EntityId(51));
    assert_eq!(disposed, None);
    let recorded = map.tiles[0].1.text.as_ref().unwrap();
    assert_eq!(recorded.0, EntityId(51));
    assert_eq!(recorded.1, "Hi");
}

#[test]
fn clicks_over_the_bar_are_suppressed() {
    // In a placement state a click over the admin bar must not reach the
    // map, nor may a click from the user window.
    assert!(map_click_allowed(false, true));
    assert!(!map_click_allowed(true, true));
    assert!(!map_click_allowed(false, false));
    assert!(!map_click_allowed(true, false));
}

#[test]
fn hp_damage_drains_temporary_first() {
    let mut hp = Hp::new(20);
    hp.set_temporary(5);
    let down = hp.damage(8);
    assert!(!down);
    assert_eq!(hp.temporary, 0);
    assert_eq!(hp.current, 17);
    // Overkill stops at zero and reports the drop.
    let down = hp.damage(40);
    assert!(down);
    assert_eq!(hp.current, 0);
}

#[test]
fn hp_heal_caps_at_max() {
    let mut hp = Hp::new(10);
    hp.damage(6);
    hp.heal(3);
    assert_eq!(hp.current, 7);
    hp.heal(100);
    assert_eq!(hp.current, 10);
    // A small hit with a buffer: only the buffer drains.
    hp.set_temporary(4);
    let down = hp.damage(3);
    assert!(!down);
    assert_eq!(hp.temporary, 1);
    assert_eq!(hp.current, 10);
}
