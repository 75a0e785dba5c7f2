use ferride::event::{EntityEvent, Event, UiRequest, Visibility};
use ferride::names::{EntityName, SceneName, SkillName};

#[test]
fn scene_requests_are_recognised() {
    let e = Event::RequestSuspendScene(SceneName::from_str("a"));
    assert_eq!(e.is_request_suspend_scene().map(|s| s.as_str()), Some("a"));
    assert!(e.is_request_delete_scene().is_none());
    assert!(e.is_request_activate_suspended_scene().is_none());
    let e = Event::RequestActivateSuspendedScene(SceneName::from_str("b"));
    assert_eq!(e.is_request_activate_suspended_scene().map(|s| s.as_str()), Some("b"));
    let e = Event::RequestDeleteScene(SceneName::from_str("c"));
    assert_eq!(e.is_request_delete_scene().map(|s| s.as_str()), Some("c"));
    let e = Event::RequestRenderScene(SceneName::from_str("d"));
    assert_eq!(e.is_request_render_scene().map(|s| s.as_str()), Some("d"));
    let e = Event::RequestSetVisibilityScene(SceneName::from_str("e"), Visibility::Hidden);
    let (s, v) = e.is_request_set_visibility_scene().unwrap();
    assert_eq!((s.as_str(), *v), ("e", Visibility::Hidden));
    let e = Event::new_scene(&SceneName::from_str("f"));
    assert!(matches!(e, Event::NewScene(ref s) if s.as_str() == "f"));
}

#[test]
fn entity_requests_are_recognised_and_consumed() {
    let e = Event::RequestDeleteEntity(EntityName::from_str("x"), SceneName::from_str("s"));
    let (n, s) = e.is_delete_entity().unwrap();
    assert_eq!((n.as_str(), s.as_str()), ("x", "s"));
    assert!(!e.is_end_game());
    assert!(Event::EndGame.is_end_game());

    let e = Event::RequestAddEntities(UiRequest::SkillButtons(vec![SkillName::from_str("Attack")]), SceneName::from_str("o"));
    assert!(e.is_add_entities());
    let (request, scene) = e.consume_add_entities_request().unwrap();
    assert_eq!(scene.as_str(), "o");
    assert!(matches!(request, UiRequest::SkillButtons(ref v) if v.len() == 1 && v[0].as_str() == "Attack"));

    let e = Event::EntityEvent(EntityName::from_str("m"), EntityEvent::CharacterDeath(EntityName::from_str("Enemy")));
    assert!(e.is_entity_event());
    let (to, what) = e.consume_entity_event().unwrap();
    assert_eq!(to.as_str(), "m");
    assert!(matches!(what, EntityEvent::CharacterDeath(ref n) if n.as_str() == "Enemy"));
    assert!(Event::EndGame.consume_entity_event().is_none());
}
