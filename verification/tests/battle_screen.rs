use ferride::battle_manager::BattleManager;
use ferride::event::{BattleEvent, Event};
use ferride::game_logic::{
    BATTLE_ACTION_SELECTION_OVERLAY_SCENE, BATTLE_DETAIL_OVERLAY_SCENE, BATTLE_SCENE, MAIN_MENU_SCENE,
    MAIN_WINDOW,
};
use ferride::game_state::{GameState, SceneContent};
use ferride::names::EntityName;

fn names(v: &Vec<EntityName>) -> Vec<String> {
    v.iter().map(|n| n.as_str().to_string()).collect()
}

fn opening_manager() -> BattleManager {
    match GameState::default_state() {
        GameState::Battle(b, _) => BattleManager::new(&b.characters),
        GameState::MainMenu => panic!("the game starts in battle"),
    }
}

fn targets(v: &[&str]) -> Vec<EntityName> {
    v.iter().map(|s| EntityName::from_str(s)).collect()
}

#[test]
fn the_battle_screen_has_a_line_per_side() {
    let m = opening_manager();
    assert_eq!(names(&m.enemies.names), vec!["Enemy", "Enemy Two"]);
    assert_eq!(names(&m.friends.names), vec!["Player", "Player Two", "Player Three"]);
    assert_eq!(m.friends.highlighted, vec![false, false, false]);
    assert!(m.focused_line.is_none());
}

#[test]
fn highlighting_marks_the_targets_and_focuses_the_first() {
    let mut m = opening_manager();
    m.highlight(&targets(&["Player Two", "Player Three"]));
    assert_eq!(m.friends.highlighted, vec![false, true, true]);
    assert_eq!(m.enemies.highlighted, vec![false, false]);
    assert_eq!(m.focused_line, Some(1));
    assert_eq!(m.friends.focus, Some(1));
    // The focused interface is still a target: the focus stays.
    m.highlight(&targets(&["Player", "Player Two"]));
    assert_eq!(m.friends.highlighted, vec![true, true, false]);
    assert_eq!(m.friends.focus, Some(1));
    // It is no target any more: the focus moves to the first target.
    m.highlight(&targets(&["Player Three"]));
    assert_eq!(m.friends.focus, Some(2));
    // Enemies come first.
    m.highlight(&targets(&["Player", "Enemy Two"]));
    assert_eq!(m.focused_line, Some(0));
    assert_eq!(m.enemies.focus, Some(1));
    assert_eq!(m.friends.focus, Some(2));
    // No target: nothing moves.
    m.highlight(&targets(&[]));
    assert_eq!(m.focused_line, Some(0));
    assert_eq!(m.enemies.highlighted, vec![false, false]);
}

#[test]
fn the_dead_leave_their_line() {
    let mut m = opening_manager();
    m.highlight(&targets(&["Player Three"]));
    m.character_died(&EntityName::from_str("Player Two"));
    assert_eq!(names(&m.friends.names), vec!["Player", "Player Three"]);
    assert_eq!(m.friends.focus, Some(1));
    m.character_died(&EntityName::from_str("Player Three"));
    assert_eq!(m.friends.focus, None);
    m.character_died(&EntityName::from_str("Enemy"));
    assert_eq!(names(&m.enemies.names), vec!["Enemy Two"]);
    m.character_died(&EntityName::from_str("Nobody"));
    assert_eq!(names(&m.friends.names), vec!["Player"]);
}

#[test]
fn consequences_follow_the_last_animation() {
    let mut m = opening_manager();
    let r = m.animate(vec![]);
    assert!(matches!(r.as_slice(), [Event::BattleEvent(BattleEvent::ActionConsequences)]));
    let r = m.animate(targets(&["health", "stamina"]));
    assert!(r.is_empty());
    let r = m.after_update(vec![Event::AnimationEnded(EntityName::from_str("health"))]);
    assert_eq!(r.len(), 1);
    assert_eq!(names(&m.pending_animations), vec!["stamina"]);
    let r = m.after_update(vec![Event::AnimationEnded(EntityName::from_str("stamina"))]);
    assert_eq!(r.len(), 2);
    assert!(matches!(r[1], Event::BattleEvent(BattleEvent::ActionConsequences)));
    // With nothing pending the events pass unchanged.
    let r = m.after_update(vec![Event::EndGame]);
    assert!(matches!(r.as_slice(), [Event::EndGame]));
}

#[test]
fn the_game_starts_with_its_scenes() {
    let menu = GameState::MainMenu.get_start_scenes();
    assert_eq!(menu.len(), 1);
    assert_eq!(menu[0].name.as_str(), MAIN_MENU_SCENE);
    assert_eq!(menu[0].z_index, 1);
    assert_eq!(menu[0].target_window, MAIN_WINDOW);
    assert!(matches!(menu[0].content, SceneContent::MainMenu));

    let battle = GameState::default_state().get_start_scenes();
    let shape: Vec<_> = battle.iter().map(|s| (s.name.as_str().to_string(), s.z_index)).collect();
    assert_eq!(
        shape,
        vec![
            (BATTLE_DETAIL_OVERLAY_SCENE.to_string(), 0),
            (BATTLE_SCENE.to_string(), 0),
            (BATTLE_ACTION_SELECTION_OVERLAY_SCENE.to_string(), 1),
        ]
    );
    assert!(battle.iter().all(|s| s.target_window == MAIN_WINDOW && s.render_scene == s.name.as_str()));
    match &battle[1].content {
        SceneContent::Battle(m) => assert_eq!(names(&m.enemies.names), vec!["Enemy", "Enemy Two"]),
        _ => panic!("the battle scene holds the battle screen"),
    }
}
