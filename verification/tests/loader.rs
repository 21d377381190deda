use dndrewrite::id::Id;
use dndrewrite::errors::TreeError;
use dndrewrite::load_handler::{
    LoadHandler, parse_file_number, parse_overlay_folder, parse_tile_folder,
};
use dndrewrite::loading::{process_loaded_folder, register_load_handlers, transform_textures};
use dndrewrite::resources::TexturesMap;
use dndrewrite::texture_tree::{TextureHandle, TextureNode};

fn files(entries: &[(&str, u64)]) -> Vec<(String, TextureHandle)> {
    entries.iter().map(|(n, h)| (n.to_string(), TextureHandle(*h))).collect()
}

#[test]
fn tile_folder_captures() {
    let c = parse_tile_folder("pointy.terrain_hills.green").unwrap();
    assert_eq!(c.0, "terrain");
    assert_eq!(c.1, "hills");
    assert_eq!(c.2, "green");
}

#[test]
fn tile_folder_greedy_type() {
    // The type capture is greedy: it swallows underscores up to the last
    // one before the final dot.
    let c = parse_tile_folder("pointy.terrain_hills_a.green").unwrap();
    assert_eq!(c.0, "terrain_hills");
    assert_eq!(c.1, "a");
    assert_eq!(c.2, "green");
}

#[test]
fn tile_folder_empty_variant_and_color() {
    let c = parse_tile_folder("pointy.water_.").unwrap();
    assert_eq!(c.0, "water");
    assert_eq!(c.1, "");
    assert_eq!(c.2, "");
}

#[test]
fn tile_folder_rejects() {
    assert!(parse_tile_folder("overlay_locations.standard_full").is_none());
    assert!(parse_tile_folder("pointy.terrain.green").is_none());
    assert!(parse_tile_folder("pointy.terrain_hills").is_none());
    assert!(parse_tile_folder("flat.terrain_hills.green").is_none());
    assert!(parse_tile_folder("pointy.terrain-hills_a.green").is_none());
}

#[test]
fn overlay_folder_captures() {
    assert_eq!(parse_overlay_folder("overlay_locations.standard_full").unwrap(), "locations");
    assert_eq!(parse_overlay_folder("overlay_a_b.standard_full").unwrap(), "a_b");
}

#[test]
fn overlay_folder_rejects() {
    assert!(parse_overlay_folder("overlay_.standard_full").is_none());
    assert!(parse_overlay_folder("overlay_locations.standard").is_none());
    assert!(parse_overlay_folder("pointy.a_b.c").is_none());
    assert!(parse_overlay_folder("overlay_loc.ations.standard_full").is_none());
}

#[test]
fn file_number_capture() {
    assert_eq!(parse_file_number("1.png").unwrap(), "1");
    assert_eq!(parse_file_number("city_1.png").unwrap(), "1");
    assert_eq!(parse_file_number("12.34.png").unwrap(), "34");
    assert_eq!(parse_file_number("007.").unwrap(), "007");
}

#[test]
fn file_number_rejects() {
    assert!(parse_file_number("city.png").is_none());
    assert!(parse_file_number("1png").is_none());
    assert!(parse_file_number("1.pn-g").is_none());
}

#[test]
fn handler_emits_tile_ids() {
    let handler = LoadHandler::TileFamily;
    let fs = files(&[("1.png", 10), ("2.png", 20), ("readme.txt", 30)]);
    let out = handler.handle("pointy.terrain_hills.green", &fs).unwrap();
    // The file without a trailing number is dropped silently.
    assert_eq!(out.len(), 2);
    assert!(out[0].0 == Id::new(&["terrain", "hills", "green", "1"]));
    assert_eq!(out[0].1, TextureHandle(10));
    assert!(out[1].0 == Id::new(&["terrain", "hills", "green", "2"]));
    // The tile handler does not recognise overlay folders.
    assert!(handler.handle("overlay_locations.standard_full", &fs).is_none());
}

#[test]
fn handler_emits_overlay_ids() {
    let handler = LoadHandler::Overlay;
    let fs = files(&[("city_1.png", 7)]);
    let out = handler.handle("overlay_locations.standard_full", &fs).unwrap();
    assert_eq!(out.len(), 1);
    assert!(out[0].0 == Id::new(&["overlay", "locations", "1"]));
    assert_eq!(out[0].1, TextureHandle(7));
}

#[test]
fn catalog_from_two_folders() {
    // Loading pointy.terrain_hills.green (1.png, 2.png) and
    // overlay_locations.standard_full (city_1.png) yields exactly the three
    // expected leaves.
    let handlers = register_load_handlers();
    let mut textures = TexturesMap::new();
    let matched = process_loaded_folder(
        &handlers,
        "pointy.terrain_hills.green",
        &files(&[("1.png", 1), ("2.png", 2)]),
        &mut textures,
    );
    assert!(matched);
    let matched = process_loaded_folder(
        &handlers,
        "overlay_locations.standard_full",
        &files(&[("city_1.png", 3)]),
        &mut textures,
    );
    assert!(matched);
    // An unrecognised folder is skipped and changes nothing.
    let matched = process_loaded_folder(
        &handlers,
        "notes",
        &files(&[("1.png", 9)]),
        &mut textures,
    );
    assert!(!matched);

    let tree = transform_textures(textures).unwrap();
    let leaf = |segs: &[&str]| {
        tree.0.lookup(&Id::new(segs)).unwrap().leaf().unwrap()
    };
    assert_eq!(leaf(&["terrain", "hills", "green", "1"]), TextureHandle(1));
    assert_eq!(leaf(&["terrain", "hills", "green", "2"]), TextureHandle(2));
    assert_eq!(leaf(&["overlay", "locations", "1"]), TextureHandle(3));
    // Strict prefixes resolve to branches.
    let node = tree.0.lookup(&Id::new(&["terrain", "hills"])).unwrap();
    assert!(node.leaf().is_none());
    assert!(node.branch().is_some());
    // Unknown identifiers resolve to nothing.
    assert!(tree.0.lookup(&Id::new(&["terrain", "plains"])).is_none());
}

#[test]
fn textures_map_insert_replaces() {
    let mut textures = TexturesMap::new();
    let id = Id::new(&["overlay", "locations", "1"]);
    textures.insert(id.clone(), TextureHandle(1));
    textures.insert(Id::new(&["overlay", "locations", "2"]), TextureHandle(2));
    textures.insert(id.clone(), TextureHandle(9));
    assert_eq!(textures.0.len(), 2);
    assert_eq!(textures.get(&id), Some(TextureHandle(9)));
    assert_eq!(textures.get(&Id::new(&["missing"])), None);
}

#[test]
fn path_conflict_is_fatal() {
    // A leaf at a strict prefix of another inserted identifier is a
    // catalog bug and surfaces as PathConflict.
    let pairs = vec![
        (Id::new(&["overlay", "x", "7"]), TextureHandle(1)),
        (Id::new(&["overlay", "x", "7", "1"]), TextureHandle(2)),
    ];
    match TextureNode::new(&pairs) {
        Err(TreeError::PathConflict) => {},
        Ok(_) => panic!("conflicting catalog accepted"),
    }
}

#[test]
fn insert_overwrites_equal_leaf() {
    let pairs = vec![
        (Id::new(&["a", "b"]), TextureHandle(1)),
        (Id::new(&["a", "c"]), TextureHandle(2)),
    ];
    let mut tree = TextureNode::new(&pairs).unwrap();
    // Re-inserting at an existing leaf replaces the handle.
    assert!(tree.insert(&Id::new(&["a", "b"]), TextureHandle(5)).is_ok());
    assert_eq!(
        tree.lookup(&Id::new(&["a", "b"])).unwrap().leaf().unwrap(),
        TextureHandle(5)
    );
    // Inserting at a branch position fails and changes nothing.
    assert!(tree.insert(&Id::new(&["a"]), TextureHandle(6)).is_err());
    assert_eq!(
        tree.lookup(&Id::new(&["a", "c"])).unwrap().leaf().unwrap(),
        TextureHandle(2)
    );
}

#[test]
fn representative_leaf_descends_first_children() {
    let pairs = vec![
        (Id::new(&["b", "z"]), TextureHandle(9)),
        (Id::new(&["a", "y"]), TextureHandle(4)),
        (Id::new(&["a", "x"]), TextureHandle(3)),
    ];
    let tree = TextureNode::new(&pairs).unwrap();
    // First child of the root is "a" (lexicographic), whose first child is
    // "x".
    assert_eq!(tree.representative_leaf(), Some(TextureHandle(3)));
    let b = tree.get_branch("b").unwrap();
    assert_eq!(b.representative_leaf(), Some(TextureHandle(9)));
    assert!(tree.contains("a"));
    assert!(!tree.contains("c"));
}
