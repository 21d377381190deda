use dndrewrite::id::Id;
use dndrewrite::map::{HexMap, overlay_layer_of, select_frame};
use dndrewrite::resources::TextureTreeResource;
use dndrewrite::texture_tree::{TextureHandle, TextureNode};
use dndrewrite::tile::{EntityId, HexCoord, OverlayLayer};

fn sample_tree() -> TextureTreeResource {
    let pairs = vec![
        (Id::new(&["terrain", "hills", "green", "1"]), TextureHandle(1)),
        (Id::new(&["overlay", "location", "1"]), TextureHandle(2)),
        (Id::new(&["overlay", "marker", "1"]), TextureHandle(3)),
    ];
    TextureTreeResource(TextureNode::new(&pairs).unwrap())
}

#[test]
fn place_tile_records_and_replaces() {
    let tree = sample_tree();
    let mut map = HexMap::new();
    let hex = HexCoord { q: 0, r: 0 };
    let id = Id::new(&["terrain", "hills", "green", "1"]);

    let disposed = map.place_tile(&tree, hex, id.clone(), EntityId(11));
    assert_eq!(disposed, None);
    assert!(map.has_tile(hex));
    assert_eq!(map.tiles.len(), 1);
    assert_eq!(map.tiles[0].1.background.as_ref().unwrap().0, EntityId(11));

    // A second click on the same hex replaces the entity; the previous one
    // is handed back for disposal.
    let disposed = map.place_tile(&tree, hex, id.clone(), EntityId(12));
    assert_eq!(disposed, Some(EntityId(11)));
    assert_eq!(map.tiles.len(), 1);
    let recorded = map.tiles[0].1.background.as_ref().unwrap();
    assert_eq!(recorded.0, EntityId(12));
    assert!(recorded.1 == id);

    // A different hex gets its own record.
    let other = HexCoord { q: 1, r: -1 };
    assert!(!map.has_tile(other));
    let disposed = map.place_tile(&tree, other, id.clone(), EntityId(13));
    assert_eq!(disposed, None);
    assert_eq!(map.tiles.len(), 2);
}

#[test]
fn place_overlay_keeps_one_entity_per_layer() {
    let tree = sample_tree();
    let mut map = HexMap::new();
    let hex = HexCoord { q: 0, r: 0 };
    map.place_tile(&tree, hex, Id::new(&["terrain", "hills", "green", "1"]), EntityId(1));

    let loc = Id::new(&["overlay", "location", "1"]);
    let mark = Id::new(&["overlay", "marker", "1"]);
    assert_eq!(map.place_overlay(&tree, hex, loc.clone(), EntityId(21)), None);
    assert_eq!(map.place_overlay(&tree, hex, mark.clone(), EntityId(22)), None);
    // Layers are independent: replacing the location overlay leaves the
    // marker alone.
    assert_eq!(map.place_overlay(&tree, hex, loc.clone(), EntityId(23)), Some(EntityId(21)));
    let tile = &map.tiles[0].1;
    assert_eq!(tile.overlay.location.as_ref().unwrap().0, EntityId(23));
    assert_eq!(tile.overlay.marker.as_ref().unwrap().0, EntityId(22));
    assert!(tile.overlay.flair.is_none());
    assert_eq!(tile.background.as_ref().unwrap().0, EntityId(1));
}

#[test]
fn place_text_records_and_replaces() {
    let tree = sample_tree();
    let mut map = HexMap::new();
    let hex = HexCoord { q: 1, r: 0 };
    map.place_tile(&tree, hex, Id::new(&["terrain", "hills", "green", "1"]), EntityId(1));

    assert_eq!(map.place_text(hex, "Hi".to_string(), EntityId(31)), None);
    assert_eq!(map.place_text(hex, "Bye".to_string(), EntityId(32)), Some(EntityId(31)));
    let tile = &map.tiles[0].1;
    let text = tile.text.as_ref().unwrap();
    assert_eq!(text.0, EntityId(32));
    assert_eq!(text.1, "Bye");
}

#[test]
fn overlay_layer_names() {
    assert_eq!(overlay_layer_of("location"), Some(OverlayLayer::Location));
    assert_eq!(overlay_layer_of("flair"), Some(OverlayLayer::Flair));
    assert_eq!(overlay_layer_of("marker"), Some(OverlayLayer::Marker));
    assert_eq!(overlay_layer_of("shadow"), None);
}

#[test]
fn frame_selection_is_clock_modulo_count() {
    assert_eq!(select_frame(4, 0), 0);
    assert_eq!(select_frame(4, 7), 3);
    assert_eq!(select_frame(4, 8), 0);
    assert_eq!(select_frame(1, 12345), 0);
}
