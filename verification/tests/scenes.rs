use ferride::event::Event;
use ferride::names::{EntityName, SceneName};
use ferride::scenes::{
    record_window_size, register_sprite_sheet, ReadyRequest, SceneBook, SceneEntry, SceneOutcome,
};

fn scene(name: &str, render: &str, window: &str, z: i32) -> SceneEntry<u32> {
    SceneEntry {
        name: SceneName::from_str(name),
        render_scene: render.to_string(),
        target_window: window.to_string(),
        z_index: z,
        content: 0,
    }
}

fn names(s: &Vec<SceneEntry<u32>>) -> Vec<String> {
    s.iter().map(|e| e.name.as_str().to_string()).collect()
}

#[test]
fn scenes_wait_for_windows_and_are_shown_by_depth() {
    let mut book = SceneBook::new(vec![
        scene("menu", "menu_rs", "main", 2),
        scene("world", "world_rs", "main", 1),
        scene("map", "map_rs", "side", 0),
        scene("help", "help_rs", "side", 5),
    ]);
    let plan = book.activate_pending(&vec!["main".to_string()]);
    let requests: Vec<_> = plan
        .requests
        .iter()
        .map(|r| (r.window.clone(), r.render_scene.clone(), r.scene.as_str().to_string()))
        .collect();
    assert_eq!(
        requests,
        vec![
            ("main".to_string(), "menu_rs".to_string(), "menu".to_string()),
            ("main".to_string(), "world_rs".to_string(), "world".to_string()),
        ]
    );
    assert_eq!(plan.needed_windows, vec!["side".to_string()]);
    assert_eq!(names(book.pending()), vec!["menu", "world", "map", "help"]);

    let side: Vec<_> = book.requests_for_window("side").iter().map(|r| r.render_scene.clone()).collect();
    assert_eq!(side, vec!["map_rs".to_string(), "help_rs".to_string()]);

    assert_eq!(book.scene_ready("menu_rs").unwrap().as_str(), "menu");
    assert_eq!(book.scene_ready("world_rs").unwrap().as_str(), "world");
    assert_eq!(book.scene_ready("help_rs").unwrap().as_str(), "help");
    assert!(book.scene_ready("nowhere").is_none());
    assert_eq!(names(book.active()), vec!["world", "menu", "help"]);
    assert_eq!(names(book.pending()), vec!["map"]);
}

#[test]
fn scenes_are_suspended_shown_again_and_deleted() {
    let mut book = SceneBook::new(vec![scene("a", "ra", "w", 1), scene("b", "rb", "w", 2)]);
    book.scene_ready("ra");
    book.scene_ready("rb");
    assert!(book.suspend("a"));
    assert!(!book.suspend("a"));
    assert_eq!(names(book.active()), vec!["b"]);
    assert_eq!(names(book.suspended()), vec!["a"]);
    assert!(book.activate_suspended("a"));
    assert_eq!(names(book.active()), vec!["a", "b"]);
    assert!(book.suspended().is_empty());
    assert!(book.suspend("b"));
    let deleted = book.delete("b").unwrap();
    assert_eq!(deleted.render_scene, "rb");
    assert!(book.suspended().is_empty());
    assert!(book.delete("b").is_none());
    let deleted = book.delete("a").unwrap();
    assert_eq!(deleted.name.as_str(), "a");
    assert!(book.active().is_empty());
}

#[test]
fn pending_scenes_named_like_shown_ones_are_dropped() {
    let mut book = SceneBook::new(vec![scene("a", "ra", "w", 1)]);
    book.scene_ready("ra");
    book.add_pending(vec![scene("a", "ra2", "w", 1), scene("c", "rc", "w", 0)]);
    let plan = book.activate_pending(&vec!["w".to_string()]);
    assert_eq!(plan.requests.len(), 1);
    assert_eq!(plan.requests[0].scene.as_str(), "c");
    assert!(plan.needed_windows.is_empty());
    assert_eq!(names(book.pending()), vec!["c"]);
}

#[test]
fn content_of_a_shown_scene_can_change() {
    let mut book = SceneBook::new(vec![scene("a", "ra", "w", 1)]);
    book.scene_ready("ra");
    *book.active_content_mut(0) = 42;
    assert_eq!(book.active()[0].content, 42);
}

#[test]
fn requests_of_the_game_change_the_scenes() {
    let mut book = SceneBook::new(vec![
        scene("a", "ra", "w", 1),
        scene("b", "rb", "v", 2),
        scene("c", "rc", "w", 3),
    ]);
    book.scene_ready("ra");
    book.scene_ready("rb");
    book.scene_ready("rc");
    assert_eq!(book.active_in_window("w"), vec![0, 2]);
    assert_eq!(book.active_in_window("v"), vec![1]);
    assert!(book.active_in_window("x").is_empty());

    let r = book.handle_request(&Event::RequestSuspendScene(SceneName::from_str("b")));
    assert!(matches!(r, SceneOutcome::Suspended(true)));
    assert_eq!(names(book.active()), vec!["a", "c"]);
    assert_eq!(names(book.suspended()), vec!["b"]);

    let r = book.handle_request(&Event::RequestDeleteEntity(
        EntityName::from_str("hero"),
        SceneName::from_str("b"),
    ));
    assert!(matches!(r, SceneOutcome::EntityScene(Some((false, 0)))));
    let r = book.handle_request(&Event::RequestDeleteEntity(
        EntityName::from_str("hero"),
        SceneName::from_str("c"),
    ));
    assert!(matches!(r, SceneOutcome::EntityScene(Some((true, 1)))));
    let r = book.handle_request(&Event::RequestDeleteEntity(
        EntityName::from_str("hero"),
        SceneName::from_str("z"),
    ));
    assert!(matches!(r, SceneOutcome::EntityScene(None)));

    let r = book.handle_request(&Event::RequestActivateSuspendedScene(SceneName::from_str("b")));
    assert!(matches!(r, SceneOutcome::Activated(true)));
    assert_eq!(names(book.active()), vec!["a", "b", "c"]);

    match book.handle_request(&Event::RequestDeleteScene(SceneName::from_str("a"))) {
        SceneOutcome::Deleted(Some(e)) => assert_eq!(e.render_scene, "ra"),
        _ => panic!("scene a was not deleted"),
    }
    assert!(matches!(
        book.handle_request(&Event::RequestDeleteScene(SceneName::from_str("a"))),
        SceneOutcome::Deleted(None)
    ));
    assert!(matches!(book.handle_request(&Event::EndGame), SceneOutcome::EndGame));
    assert!(matches!(
        book.handle_request(&Event::RequestRenderScene(SceneName::from_str("b"))),
        SceneOutcome::Other
    ));
    assert_eq!(names(book.active()), vec!["b", "c"]);
}

#[test]
fn suspending_and_showing_again_gives_the_scenes_back() {
    let mut book = SceneBook::new(vec![
        scene("a", "ra", "w", 1),
        scene("b", "rb", "w", 2),
        scene("c", "rc", "w", 3),
    ]);
    book.scene_ready("ra");
    book.scene_ready("rb");
    book.scene_ready("rc");
    assert!(book.suspend("b"));
    assert!(book.activate_suspended("b"));
    assert_eq!(names(book.active()), vec!["a", "b", "c"]);
    assert!(book.suspended().is_empty());

    // A scene of the same depth behind it: the scene comes back after it.
    let mut same = SceneBook::new(vec![scene("x", "rx", "w", 1), scene("y", "ry", "w", 1)]);
    same.scene_ready("rx");
    same.scene_ready("ry");
    assert!(same.suspend("x"));
    assert!(same.activate_suspended("x"));
    assert_eq!(names(same.active()), vec!["y", "x"]);
}

#[test]
fn a_ready_scene_asks_for_its_sprite_sheets_then_announces_itself() {
    let mut book = SceneBook::new(vec![scene("a", "ra", "w", 1), scene("b", "rb", "w", 0)]);
    let sheets = |c: &u32| if *c == 0 { vec!["hero".to_string(), "tiles".to_string()] } else { vec![] };
    let r = book.scene_ready_requests("rb", sheets).unwrap();
    let shown: Vec<String> = r
        .iter()
        .map(|q| match q {
            ReadyRequest::SpriteSheet(s) => format!("sheet {}", s),
            ReadyRequest::NewScene(n) => format!("scene {}", n.as_str()),
        })
        .collect();
    assert_eq!(shown, vec!["sheet hero", "sheet tiles", "scene b"]);
    assert_eq!(names(book.active()), vec!["b"]);
    assert_eq!(names(book.pending()), vec!["a"]);
    assert!(book.scene_ready_requests("nowhere", sheets).is_none());
}

#[test]
fn sprite_sheets_are_registered_once() {
    let mut sheets: Vec<(String, u32)> = vec![];
    register_sprite_sheet(&mut sheets, "hero".to_string(), 1);
    register_sprite_sheet(&mut sheets, "tiles".to_string(), 2);
    register_sprite_sheet(&mut sheets, "hero".to_string(), 3);
    assert_eq!(sheets, vec![("hero".to_string(), 1), ("tiles".to_string(), 2)]);
}

#[test]
fn window_sizes_are_updated_in_place() {
    let mut sizes: Vec<(u64, (u32, u32))> = vec![];
    record_window_size(&mut sizes, 7, (800, 600));
    record_window_size(&mut sizes, 9, (100, 100));
    record_window_size(&mut sizes, 7, (1024, 768));
    assert_eq!(sizes, vec![(7, (1024, 768)), (9, (100, 100))]);
}
