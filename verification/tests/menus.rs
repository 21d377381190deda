use dndrewrite::admin_button::ButtonAction;
use dndrewrite::admin_menu::AdminMenus;
use dndrewrite::id::Id;
use dndrewrite::loading::{process_loaded_folder, register_load_handlers, transform_textures};
use dndrewrite::navigation::AdminMenuStack;
use dndrewrite::resources::{TextureTreeResource, TexturesMap, UITracker};
use dndrewrite::texture_tree::{TextureHandle, TextureNode};

fn files(entries: &[(&str, u64)]) -> Vec<(String, TextureHandle)> {
    entries.iter().map(|(n, h)| (n.to_string(), TextureHandle(*h))).collect()
}

fn sample_tree() -> TextureTreeResource {
    let handlers = register_load_handlers();
    let mut textures = TexturesMap::new();
    process_loaded_folder(
        &handlers,
        "pointy.terrain_hills.green",
        &files(&[("1.png", 1), ("2.png", 2)]),
        &mut textures,
    );
    process_loaded_folder(
        &handlers,
        "overlay_locations.standard_full",
        &files(&[("city_1.png", 3)]),
        &mut textures,
    );
    transform_textures(textures).unwrap()
}

#[test]
fn root_menu_is_lexicographic() {
    let tree = sample_tree();
    let menus = AdminMenus::build(&tree);
    let root = menus.get(&Id::new(&[])).unwrap();
    assert_eq!(root.0.len(), 2);
    assert_eq!(root.0[0].name, "overlay");
    assert_eq!(root.0[1].name, "terrain");
    // Both children are branches: their buttons descend.
    assert!(matches!(&root.0[0].on_click, ButtonAction::Descend(s) if s == "overlay"));
    assert!(matches!(&root.0[1].on_click, ButtonAction::Descend(s) if s == "terrain"));
    // Previews are the representative leaves of the subtrees.
    assert_eq!(root.0[0].texture, TextureHandle(3));
    assert_eq!(root.0[1].texture, TextureHandle(1));
}

#[test]
fn drilling_in_reaches_the_frames() {
    let tree = sample_tree();
    let menus = AdminMenus::build(&tree);
    let mut stack = AdminMenuStack::new();

    // Pressing `terrain` renders a one-button menu for `hills`.
    let root = menus.get(&stack.0).unwrap();
    let terrain_click = root.0[1].on_click.clone();
    let rendered = stack.handle_press(&terrain_click).unwrap();
    let menu = menus.get(&rendered).unwrap();
    assert_eq!(menu.0.len(), 1);
    assert_eq!(menu.0[0].name, "hills");

    // Pressing that renders `green`.
    let hills_click = menu.0[0].on_click.clone();
    let rendered = stack.handle_press(&hills_click).unwrap();
    let menu = menus.get(&rendered).unwrap();
    assert_eq!(menu.0.len(), 1);
    assert_eq!(menu.0[0].name, "green");

    // Pressing that renders the two frames, as leaf buttons.
    let green_click = menu.0[0].on_click.clone();
    let rendered = stack.handle_press(&green_click).unwrap();
    let menu = menus.get(&rendered).unwrap();
    assert_eq!(menu.0.len(), 2);
    assert_eq!(menu.0[0].name, "1");
    assert_eq!(menu.0[1].name, "2");
    assert!(matches!(menu.0[0].on_click, ButtonAction::NoOp));
    assert_eq!(menu.0[0].texture, TextureHandle(1));
    assert_eq!(menu.0[1].texture, TextureHandle(2));

    // A leaf press changes nothing; no menu lookup happens on a leaf
    // identifier.
    let leaf_click = menu.0[0].on_click.clone();
    assert!(stack.handle_press(&leaf_click).is_none());
}

#[test]
fn menu_map_has_no_leaf_entries() {
    let tree = sample_tree();
    let menus = AdminMenus::build(&tree);
    assert!(menus.get(&Id::new(&["terrain", "hills", "green", "1"])).is_none());
    assert!(menus.get(&Id::new(&["overlay", "locations"])).is_some());
}

#[test]
fn empty_catalog_has_an_empty_root_menu() {
    let tree = TextureTreeResource(TextureNode::new(&Vec::new()).unwrap());
    let menus = AdminMenus::build(&tree);
    let root = menus.get(&Id::new(&[])).unwrap();
    assert_eq!(root.0.len(), 0);
}

#[test]
fn tracker_swaps_buttons_atomically() {
    let mut tracker = UITracker::new(100, 101);
    assert_eq!(tracker.admin_bar(), 100);
    assert_eq!(tracker.back_button(), 101);
    let old = tracker.replace_buttons(vec![1, 2, 3]);
    assert!(old.is_empty());
    let old = tracker.replace_buttons(vec![4]);
    assert_eq!(old, vec![1, 2, 3]);
    assert_eq!(tracker.buttons, vec![4]);
}
