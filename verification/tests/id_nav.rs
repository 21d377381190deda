use dndrewrite::id::Id;
use dndrewrite::navigation::{AdminMenuStack, activate};
use dndrewrite::admin_button::ButtonAction;

#[test]
fn id_new_and_get() {
    let id = Id::new(&["terrain", "hills", "green", "1"]);
    assert_eq!(id.len(), 4);
    assert_eq!(id.get(0), Some("terrain"));
    assert_eq!(id.get(3), Some("1"));
    assert_eq!(id.get(4), None);
}

#[test]
fn id_push_extend_init() {
    let mut id = Id::new(&["a"]);
    id.push("b".to_string());
    assert_eq!(id.get(1), Some("b"));
    let ext = id.extend("c".to_string());
    assert_eq!(ext.len(), 3);
    assert_eq!(id.len(), 2);
    let parent = ext.init();
    assert!(parent == id);
    let root = Id::new(&[]);
    assert!(root.init() == root);
}

#[test]
fn id_equality() {
    let a = Id::new(&["x", "y"]);
    let b = Id::new(&["x", "y"]);
    let c = Id::new(&["x", "z"]);
    assert!(a == b);
    assert!(a != c);
}

#[test]
fn id_display_joins_with_slash() {
    let id = Id::new(&["terrain", "hills", "green"]);
    assert_eq!(id.display(), "terrain/hills/green");
    let root = Id::new(&[]);
    assert_eq!(root.display(), "");
    let single = Id::new(&["overlay"]);
    assert_eq!(single.display(), "overlay");
}

#[test]
fn parent_round_trip_returns_root() {
    // Applying `parent` once per segment returns to the root.
    let id = Id::new(&["a", "b", "c"]);
    let mut cur = id;
    for _ in 0..3 {
        cur = cur.init();
    }
    assert!(cur.is_root());
}

#[test]
fn breadcrumb_presses_render_once_per_change() {
    let mut stack = AdminMenuStack::new();
    let down = stack.handle_press(&ButtonAction::Descend("terrain".to_string()));
    assert!(down.is_some());
    assert_eq!(down.unwrap().display(), "terrain");
    // A leaf button is a no-op: no render is requested.
    let noop = stack.handle_press(&ButtonAction::NoOp);
    assert!(noop.is_none());
    let up = stack.handle_press(&ButtonAction::Ascend);
    assert!(up.is_some());
    assert!(up.unwrap().is_root());
    // Back on the root stays on the root and renders nothing.
    let stay = stack.handle_press(&ButtonAction::Ascend);
    assert!(stay.is_none());
}

#[test]
fn descend_and_ascend_visit_intermediates_twice() {
    // Walking down to a/b/c and back up visits "a" and "a/b" once in each
    // direction.
    let target = Id::new(&["a", "b", "c"]);
    let mut stack = AdminMenuStack::new();
    let mut rendered: Vec<String> = Vec::new();
    for i in 0..3 {
        let seg = target.get(i).unwrap().to_string();
        if let Some(id) = stack.handle_press(&ButtonAction::Descend(seg)) {
            rendered.push(id.display());
        }
    }
    for _ in 0..3 {
        if let Some(id) = stack.handle_press(&ButtonAction::Ascend) {
            rendered.push(id.display());
        }
    }
    assert_eq!(
        rendered,
        vec!["a", "a/b", "a/b/c", "a/b", "a", ""]
    );
    let visits = |name: &str| rendered.iter().filter(|r| r.as_str() == name).count();
    assert_eq!(visits("a"), 2);
    assert_eq!(visits("a/b"), 2);
}

#[test]
fn activate_interprets_actions() {
    let at = Id::new(&["x"]);
    let down = activate(&at, &ButtonAction::Descend("y".to_string()));
    assert_eq!(down.display(), "x/y");
    let same = activate(&at, &ButtonAction::NoOp);
    assert!(same == at);
    let up = activate(&at, &ButtonAction::Ascend);
    assert!(up.is_root());
}
